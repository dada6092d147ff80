//! The syntax tree that the analysis reads, and what each of its nodes says
//! about declarations, calls and imports.
//!
//! A tree keeps the nesting of a source file (items inside modules, expressions
//! inside function bodies) and, of each node, only what the analysis looks at.

use vstd::prelude::*;

verus! {

/// The tree of one import statement: `a::b`, `a`, `a as b`, `*`, `{a, b}`.
#[derive(Debug)]
pub enum UseTree {
    /// A path segment followed by what is imported from under it.
    Path { ident: String, tree: Box<UseTree> },
    /// A single name that ends a path.
    Name { ident: String },
    /// A name that ends a path and is given another name.
    Rename { ident: String, rename: String },
    /// Everything under the path so far.
    Glob,
    /// Several trees that share the path so far.
    Group { items: Vec<UseTree> },
}

/// What a call expression calls.
#[derive(Debug)]
pub enum Callee {
    /// A simple or qualified path, such as `f` or `a::b::f`.
    Path { segments: Vec<String> },
    /// Anything else: a closure, a field, the result of another call.
    Computed,
}

/// What the analysis reads of one node.
#[derive(Debug)]
pub enum NodeKind {
    /// A function definition.
    Function { name: String },
    /// A module definition.
    Module { name: String },
    /// An import statement.
    Import { tree: UseTree },
    /// A call expression.
    Call { callee: Callee },
    /// A path expression: something named, whether to call it or to use it
    /// as a value.
    PathRef { segments: Vec<String> },
    /// Any other item or expression.
    Other,
}

/// One item or expression, with the items and expressions nested in it.
#[derive(Debug)]
pub struct SyntaxNode {
    /// What the node is.
    pub kind: NodeKind,
    /// The items and expressions directly inside the node, in source order.
    pub children: Vec<SyntaxNode>,
}

/// One parsed source file.
#[derive(Debug)]
pub struct SourceFile {
    /// The top-level items of the file, in source order.
    pub items: Vec<SyntaxNode>,
}

/// The three things a node can tell the analysis.
#[derive(Clone, Copy, Debug, PartialEq, Eq, Structural)]
pub enum Signal {
    /// A function or a module is defined here.
    Declaration,
    /// A function is called here.
    Usage,
    /// Something is imported here.
    Import,
}

/// The name of the function that is the program's entry point.
pub const ENTRY_POINT: &'static str = "main";

/// What the key of every function begins with.
pub const FUNCTION_PREFIX: &'static str = "fn ";

/// What the key of every module begins with.
pub const MODULE_PREFIX: &'static str = "mod ";

/// The name of the entry point, as characters.
pub open spec fn entry_point() -> Seq<char> {
    ENTRY_POINT@
}

/// What the key of every function begins with, as characters.
pub open spec fn function_prefix() -> Seq<char> {
    FUNCTION_PREFIX@
}

/// What the key of every module begins with, as characters.
pub open spec fn module_prefix() -> Seq<char> {
    MODULE_PREFIX@
}

/// The key under which a function is recorded and reported.
pub open spec fn function_key(name: Seq<char>) -> Seq<char> {
    function_prefix() + name
}

/// The key under which a module is recorded and reported.
pub open spec fn module_key(name: Seq<char>) -> Seq<char> {
    module_prefix() + name
}

/// Makes the key of the function called `name`.
pub fn function_key_of(name: &str) -> (key: String)
    ensures
        key@ == function_key(name@),
{
    String::from_str(FUNCTION_PREFIX).concat(name)
}

/// Makes the key of the module called `name`.
pub fn module_key_of(name: &str) -> (key: String)
    ensures
        key@ == module_key(name@),
{
    String::from_str(MODULE_PREFIX).concat(name)
}

/// Keys tell functions from modules, and one function from another.
pub proof fn lemma_keys_distinct(a: Seq<char>, b: Seq<char>)
    ensures
        function_key(a) != module_key(b),
        function_key(a) == function_key(b) ==> a == b,
        module_key(a) == module_key(b) ==> a == b,
        function_prefix().is_prefix_of(function_key(a)),
        module_prefix().is_prefix_of(module_key(a)),
        !function_prefix().is_prefix_of(module_key(a)),
        !module_prefix().is_prefix_of(function_key(a)),
{
    reveal_strlit("fn ");
    reveal_strlit("mod ");
    let f = function_prefix();
    let m = module_prefix();
    assert(function_key(a)[0] == 'f');
    assert(module_key(b)[0] == 'm');
    assert(function_key(a).skip(3) =~= a);
    assert(function_key(b).skip(3) =~= b);
    assert(module_key(a).skip(4) =~= a);
    assert(module_key(b).skip(4) =~= b);
    assert(function_key(a).subrange(0, 3) =~= f);
    assert(module_key(a).subrange(0, 4) =~= m);
    if f.is_prefix_of(module_key(a)) {
        assert(module_key(a).subrange(0, 3)[0] == 'f');
    }
    if m.is_prefix_of(function_key(a)) {
        assert(function_key(a).subrange(0, 4)[0] == 'm');
    }
}

/// `name` is the first segment of a path that `tree` imports.
pub open spec fn imports_from(tree: UseTree, name: Seq<char>) -> bool
    decreases tree,
{
    match tree {
        UseTree::Path { ident, tree: _ } => ident@ == name,
        UseTree::Name { ident } => ident@ == name,
        UseTree::Rename { ident, rename: _ } => ident@ == name,
        UseTree::Glob => false,
        UseTree::Group { items } => exists|i: int|
            #![trigger items@[i]]
            0 <= i < items@.len() && imports_from(items@[i], name),
    }
}

/// The first segments of the paths that `tree` imports.
pub open spec fn import_roots(tree: UseTree) -> Set<Seq<char>> {
    Set::new(|name: Seq<char>| imports_from(tree, name))
}

/// The first segments of the paths that one of `trees` imports.
pub open spec fn group_roots(trees: Seq<UseTree>) -> Set<Seq<char>> {
    Set::new(
        |name: Seq<char>|
            exists|i: int|
                #![trigger trees[i]]
                0 <= i < trees.len() && imports_from(trees[i], name),
    )
}

/// A group imports what its members import.
pub proof fn lemma_import_roots_of_group(tree: UseTree)
    requires
        tree is Group,
    ensures
        import_roots(tree) == group_roots(tree->items@),
{
    assert(import_roots(tree) =~= group_roots(tree->items@));
}

/// A tree that is no group imports from one name at most.
pub proof fn lemma_import_roots_of_leaf(tree: UseTree)
    requires
        !(tree is Group),
    ensures
        import_roots(tree) == match tree {
            UseTree::Path { ident, tree: _ } => set![ident@],
            UseTree::Name { ident } => set![ident@],
            UseTree::Rename { ident, rename: _ } => set![ident@],
            _ => Set::<Seq<char>>::empty(),
        },
{
    match tree {
        UseTree::Path { ident, tree: _ } => {
            assert(import_roots(tree) =~= set![ident@]);
        },
        UseTree::Name { ident } => {
            assert(import_roots(tree) =~= set![ident@]);
        },
        UseTree::Rename { ident, rename: _ } => {
            assert(import_roots(tree) =~= set![ident@]);
        },
        _ => {
            assert(import_roots(tree) =~= Set::<Seq<char>>::empty());
        },
    }
}

/// The first `i + 1` trees import what the first `i` import and what the next
/// one imports.
pub proof fn lemma_group_roots_step(trees: Seq<UseTree>, i: int)
    requires
        0 <= i < trees.len(),
    ensures
        group_roots(trees.take(i + 1)) == group_roots(trees.take(i)) + import_roots(trees[i]),
{
    let whole = group_roots(trees.take(i + 1));
    let parts = group_roots(trees.take(i)) + import_roots(trees[i]);
    assert forall|name: Seq<char>| whole.contains(name) == parts.contains(name) by {
        if whole.contains(name) {
            let j = choose|j: int|
                #![trigger trees.take(i + 1)[j]]
                0 <= j < i + 1 && imports_from(trees.take(i + 1)[j], name);
            if j < i {
                assert(imports_from(trees.take(i)[j], name));
            }
        }
        if group_roots(trees.take(i)).contains(name) {
            let j = choose|j: int|
                #![trigger trees.take(i)[j]]
                0 <= j < i && imports_from(trees.take(i)[j], name);
            assert(imports_from(trees.take(i + 1)[j], name));
        }
        if import_roots(trees[i]).contains(name) {
            assert(imports_from(trees.take(i + 1)[i], name));
        }
    }
    assert(whole =~= parts);
}

/// The declaration that a node makes: a function other than the entry point,
/// or a module.
pub open spec fn declarations_of(kind: NodeKind) -> Set<Seq<char>> {
    match kind {
        NodeKind::Function { name } => if name@ == entry_point() {
            Set::empty()
        } else {
            set![function_key(name@)]
        },
        NodeKind::Module { name } => set![module_key(name@)],
        _ => Set::empty(),
    }
}

/// The function that a node calls directly: the last segment of the path it
/// calls.
pub open spec fn calls_of(kind: NodeKind) -> Set<Seq<char>> {
    match kind {
        NodeKind::Call { callee: Callee::Path { segments } } => if segments@.len() > 0 {
            set![function_key(segments@.last()@)]
        } else {
            Set::empty()
        },
        _ => Set::empty(),
    }
}

/// The names that a node imports from.
pub open spec fn imports_of(kind: NodeKind) -> Set<Seq<char>> {
    match kind {
        NodeKind::Import { tree } => import_roots(tree),
        _ => Set::empty(),
    }
}

/// What a node of this kind says, of one signal.
pub open spec fn emitted(signal: Signal, kind: NodeKind) -> Set<Seq<char>> {
    match signal {
        Signal::Declaration => declarations_of(kind),
        Signal::Usage => calls_of(kind),
        Signal::Import => imports_of(kind),
    }
}

/// `n` is `root` or is nested in it, at any depth.
pub open spec fn within(n: SyntaxNode, root: SyntaxNode) -> bool
    decreases root,
{
    n == root || exists|i: int|
        #![trigger root.children@[i]]
        0 <= i < root.children@.len() && within(n, root.children@[i])
}

/// `n` is one of `roots` or is nested in one of them.
pub open spec fn within_any(n: SyntaxNode, roots: Seq<SyntaxNode>) -> bool {
    exists|i: int| 0 <= i < roots.len() && #[trigger] within(n, roots[i])
}

/// `n` is a node of one of `files`.
pub open spec fn within_project(n: SyntaxNode, files: Seq<SourceFile>) -> bool {
    exists|f: int| 0 <= f < files.len() && #[trigger] within_any(n, files[f].items@)
}

/// What the nodes of one tree say, of one signal.
pub open spec fn node_signals(signal: Signal, root: SyntaxNode) -> Set<Seq<char>> {
    Set::new(
        |k: Seq<char>|
            exists|n: SyntaxNode|
                within(n, root) && #[trigger] emitted(signal, n.kind).contains(k),
    )
}

/// What the nodes of several trees say, of one signal.
pub open spec fn forest_signals(signal: Signal, roots: Seq<SyntaxNode>) -> Set<Seq<char>> {
    Set::new(
        |k: Seq<char>|
            exists|n: SyntaxNode|
                within_any(n, roots) && #[trigger] emitted(signal, n.kind).contains(k),
    )
}

/// What the nodes of a whole project say, of one signal.
pub open spec fn project_signals(signal: Signal, files: Seq<SourceFile>) -> Set<Seq<char>> {
    Set::new(
        |k: Seq<char>|
            exists|n: SyntaxNode|
                within_project(n, files) && #[trigger] emitted(signal, n.kind).contains(k),
    )
}

/// The keys of the functions and modules that the project declares.
pub open spec fn declared_in(files: Seq<SourceFile>) -> Set<Seq<char>> {
    project_signals(Signal::Declaration, files)
}

/// The keys of the functions that the project calls directly.
pub open spec fn called_in(files: Seq<SourceFile>) -> Set<Seq<char>> {
    project_signals(Signal::Usage, files)
}

/// The names that the project's import statements begin with.
pub open spec fn imported_in(files: Seq<SourceFile>) -> Set<Seq<char>> {
    project_signals(Signal::Import, files)
}

/// A tree says what its root says and what the trees under the root say.
pub proof fn lemma_node_signals(signal: Signal, root: SyntaxNode)
    ensures
        node_signals(signal, root) == emitted(signal, root.kind) + forest_signals(
            signal,
            root.children@,
        ),
{
    let whole = node_signals(signal, root);
    let parts = emitted(signal, root.kind) + forest_signals(signal, root.children@);
    assert forall|k: Seq<char>| whole.contains(k) == parts.contains(k) by {
        if whole.contains(k) {
            let n = choose|n: SyntaxNode|
                within(n, root) && #[trigger] emitted(signal, n.kind).contains(k);
            if n != root {
                let i = choose|i: int|
                    #![trigger root.children@[i]]
                    0 <= i < root.children@.len() && within(n, root.children@[i]);
                assert(within(n, root.children@[i]));
            }
        }
        if forest_signals(signal, root.children@).contains(k) {
            let n = choose|n: SyntaxNode|
                within_any(n, root.children@) && #[trigger] emitted(signal, n.kind).contains(k);
            let i = choose|i: int|
                0 <= i < root.children@.len() && #[trigger] within(n, root.children@[i]);
            assert(within(n, root.children@[i]));
        }
        if emitted(signal, root.kind).contains(k) {
            assert(within(root, root));
        }
    }
    assert(whole =~= parts);
}

/// No trees say nothing.
pub proof fn lemma_forest_signals_empty(signal: Signal, roots: Seq<SyntaxNode>)
    requires
        roots.len() == 0,
    ensures
        forest_signals(signal, roots) == Set::<Seq<char>>::empty(),
{
    assert(forest_signals(signal, roots) =~= Set::<Seq<char>>::empty());
}

/// The first `i + 1` trees say what the first `i` say and what the next one says.
pub proof fn lemma_forest_signals_step(signal: Signal, roots: Seq<SyntaxNode>, i: int)
    requires
        0 <= i < roots.len(),
    ensures
        forest_signals(signal, roots.take(i + 1)) == forest_signals(signal, roots.take(i))
            + node_signals(signal, roots[i]),
{
    let whole = forest_signals(signal, roots.take(i + 1));
    let parts = forest_signals(signal, roots.take(i)) + node_signals(signal, roots[i]);
    assert forall|k: Seq<char>| whole.contains(k) == parts.contains(k) by {
        if whole.contains(k) {
            let n = choose|n: SyntaxNode|
                within_any(n, roots.take(i + 1)) && #[trigger] emitted(signal, n.kind).contains(k);
            let j = choose|j: int| 0 <= j < i + 1 && #[trigger] within(n, roots.take(i + 1)[j]);
            if j < i {
                assert(within(n, roots.take(i)[j]));
            }
        }
        if forest_signals(signal, roots.take(i)).contains(k) {
            let n = choose|n: SyntaxNode|
                within_any(n, roots.take(i)) && #[trigger] emitted(signal, n.kind).contains(k);
            let j = choose|j: int| 0 <= j < i && #[trigger] within(n, roots.take(i)[j]);
            assert(within(n, roots.take(i + 1)[j]));
        }
        if node_signals(signal, roots[i]).contains(k) {
            let n = choose|n: SyntaxNode|
                within(n, roots[i]) && #[trigger] emitted(signal, n.kind).contains(k);
            assert(within(n, roots.take(i + 1)[i]));
        }
    }
    assert(whole =~= parts);
}

/// No files say nothing.
pub proof fn lemma_project_signals_empty(signal: Signal, files: Seq<SourceFile>)
    requires
        files.len() == 0,
    ensures
        project_signals(signal, files) == Set::<Seq<char>>::empty(),
{
    assert(project_signals(signal, files) =~= Set::<Seq<char>>::empty());
}

/// The first `i + 1` files say what the first `i` say and what the next one says.
pub proof fn lemma_project_signals_step(signal: Signal, files: Seq<SourceFile>, i: int)
    requires
        0 <= i < files.len(),
    ensures
        project_signals(signal, files.take(i + 1)) == project_signals(signal, files.take(i))
            + forest_signals(signal, files[i].items@),
{
    let whole = project_signals(signal, files.take(i + 1));
    let parts = project_signals(signal, files.take(i)) + forest_signals(signal, files[i].items@);
    assert forall|k: Seq<char>| whole.contains(k) == parts.contains(k) by {
        if whole.contains(k) {
            let n = choose|n: SyntaxNode|
                within_project(n, files.take(i + 1)) && #[trigger] emitted(signal, n.kind).contains(
                    k,
                );
            let j = choose|j: int|
                0 <= j < i + 1 && #[trigger] within_any(n, files.take(i + 1)[j].items@);
            if j < i {
                assert(within_any(n, files.take(i)[j].items@));
            }
        }
        if project_signals(signal, files.take(i)).contains(k) {
            let n = choose|n: SyntaxNode|
                within_project(n, files.take(i)) && #[trigger] emitted(signal, n.kind).contains(k);
            let j = choose|j: int| 0 <= j < i && #[trigger] within_any(n, files.take(i)[j].items@);
            assert(within_any(n, files.take(i + 1)[j].items@));
        }
        if forest_signals(signal, files[i].items@).contains(k) {
            let n = choose|n: SyntaxNode|
                within_any(n, files[i].items@) && #[trigger] emitted(signal, n.kind).contains(k);
            assert(within_any(n, files.take(i + 1)[i].items@));
        }
    }
    assert(whole =~= parts);
}

} // verus!
