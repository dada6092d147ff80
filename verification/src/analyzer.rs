//! The analysis itself: what the files of a project declare, call and import is
//! gathered into sets, and the sets are reconciled into a report.

use crate::reporter::AnalysisReport;
use crate::string_set::{
    lemma_listing_unique, lists_exactly, strictly_ascending, texts, StringSet,
};
use crate::syntax::{
    called_in, calls_of, declarations_of, declared_in, emitted, entry_point, forest_signals,
    function_key, function_key_of, function_prefix, group_roots, import_roots, imported_in,
    imports_from, imports_of, lemma_forest_signals_empty, lemma_forest_signals_step,
    lemma_group_roots_step, lemma_import_roots_of_group, lemma_import_roots_of_leaf,
    lemma_keys_distinct, lemma_node_signals, lemma_project_signals_empty,
    lemma_project_signals_step, module_key_of, module_prefix, node_signals, project_signals,
    within_project, Callee, NodeKind, Signal, SourceFile, SyntaxNode, UseTree, ENTRY_POINT,
    FUNCTION_PREFIX, MODULE_PREFIX,
};
use crate::text::{compare, has_prefix, lex_less, Relation};
use vstd::prelude::*;

verus! {

/// The members of `all` that begin with `prefix` and are not in `used`.
pub open spec fn unused_entries(
    all: Set<Seq<char>>,
    used: Set<Seq<char>>,
    prefix: Seq<char>,
) -> Set<Seq<char>> {
    Set::new(|k: Seq<char>| all.contains(k) && !used.contains(k) && prefix.is_prefix_of(k))
}

/// `report` is what the four sets reconcile to: the dependencies that are not
/// imported, and the declared functions and modules that are not used, each
/// listing in ascending order.
pub open spec fn reconciles(
    report: AnalysisReport,
    declared: Set<Seq<char>>,
    used: Set<Seq<char>>,
    dependencies: Set<Seq<char>>,
    used_dependencies: Set<Seq<char>>,
) -> bool {
    &&& lists_exactly(report.unused_dependencies@, dependencies.difference(used_dependencies))
    &&& lists_exactly(report.unused_functions@, unused_entries(declared, used, function_prefix()))
    &&& lists_exactly(report.unused_modules@, unused_entries(declared, used, module_prefix()))
}

/// Lists, in ascending order, the members of `all` that begin with `prefix`
/// and are not in `used`.
fn list_unused(all: &StringSet, used: &StringSet, prefix: &str) -> (out: Vec<String>)
    requires
        all.wf(),
        used.wf(),
    ensures
        lists_exactly(out@, unused_entries(all@, used@, prefix@)),
{
    let entries = all.entries();
    let mut out: Vec<String> = Vec::new();
    let ghost mut origin: Seq<int> = Seq::empty();
    let mut i: usize = 0;
    while i < entries.len()
        invariant
            used.wf(),
            lists_exactly(entries@, all@),
            i <= entries@.len(),
            origin.len() == out@.len(),
            forall|m: int|
                0 <= m < out@.len() ==> 0 <= #[trigger] origin[m] < i && out@[m]@
                    == entries@[origin[m]]@,
            forall|j: int|
                0 <= j < i && prefix@.is_prefix_of(entries@[j]@) && !used@.contains(entries@[j]@)
                    ==> texts(out@).contains(#[trigger] entries@[j]@),
            forall|m: int|
                0 <= m < out@.len() ==> prefix@.is_prefix_of(#[trigger] out@[m]@)
                    && !used@.contains(out@[m]@),
            strictly_ascending(texts(out@)),
        decreases entries@.len() - i,
    {
        let entry = &entries[i];
        if has_prefix(entry.as_str(), prefix) && !used.contains(entry.as_str()) {
            let ghost before = out@;
            out.push(entry.clone());
            proof {
                origin = origin.push(i as int);
                assert forall|a: int, b: int| 0 <= a < b < out@.len() implies lex_less(
                    texts(out@)[a],
                    texts(out@)[b],
                ) by {
                    if b == out@.len() - 1 {
                        assert(lex_less(texts(entries@)[origin[a]], texts(entries@)[i as int]));
                    } else {
                        assert(lex_less(texts(before)[a], texts(before)[b]));
                    }
                }
                assert forall|j: int|
                    0 <= j < i + 1 && prefix@.is_prefix_of(entries@[j]@) && !used@.contains(
                        entries@[j]@,
                    ) implies texts(out@).contains(#[trigger] entries@[j]@) by {
                    if j < i {
                        let m = choose|m: int|
                            0 <= m < texts(before).len() && texts(before)[m] == entries@[j]@;
                        assert(texts(out@)[m] == entries@[j]@);
                    } else {
                        assert(texts(out@)[out@.len() - 1] == entries@[j]@);
                    }
                }
            }
        }
        i += 1;
    }
    proof {
        let wanted = unused_entries(all@, used@, prefix@);
        assert forall|k: Seq<char>| texts(out@).to_set().contains(k) == wanted.contains(k) by {
            if texts(out@).contains(k) {
                let m = choose|m: int| 0 <= m < texts(out@).len() && texts(out@)[m] == k;
                assert(texts(entries@)[origin[m]] == k);
                assert(texts(entries@).contains(k));
            }
            if wanted.contains(k) {
                assert(texts(entries@).to_set().contains(k));
                let j = choose|j: int| 0 <= j < texts(entries@).len() && texts(entries@)[j] == k;
                assert(texts(out@).contains(entries@[j]@));
            }
        }
        assert(texts(out@).to_set() =~= wanted);
    }
    out
}

/// Reconciles what was declared with what was used, and what the project
/// depends on with what it imports.
pub fn reconcile(
    declared: &StringSet,
    used: &StringSet,
    dependencies: &StringSet,
    used_dependencies: &StringSet,
) -> (report: AnalysisReport)
    requires
        declared.wf(),
        used.wf(),
        dependencies.wf(),
        used_dependencies.wf(),
    ensures
        reconciles(report, declared@, used@, dependencies@, used_dependencies@),
{
    let unused_dependencies = list_unused(dependencies, used_dependencies, "");
    let unused_functions = list_unused(declared, used, FUNCTION_PREFIX);
    let unused_modules = list_unused(declared, used, MODULE_PREFIX);
    proof {
        reveal_strlit("");
        assert(unused_entries(dependencies@, used_dependencies@, ""@) =~= dependencies@.difference(
            used_dependencies@,
        ));
    }
    AnalysisReport { unused_dependencies, unused_functions, unused_modules }
}

/// Gathers declarations, calls and imports file by file, and reports what is
/// declared or depended on and never used.
#[derive(Debug)]
pub struct CodeAnalyzer {
    /// The result of the last reconciliation.
    pub report: AnalysisReport,
    declared_items: StringSet,
    used_items: StringSet,
    dependencies: StringSet,
    used_dependencies: StringSet,
}

impl CodeAnalyzer {
    /// The keys of the functions and modules seen declared so far.
    pub closed spec fn declared_keys(&self) -> Set<Seq<char>> {
        self.declared_items@
    }

    /// The keys of the functions seen called so far.
    pub closed spec fn used_keys(&self) -> Set<Seq<char>> {
        self.used_items@
    }

    /// The names of the dependencies given so far.
    pub closed spec fn dependency_names(&self) -> Set<Seq<char>> {
        self.dependencies@
    }

    /// The names that import statements seen so far begin with.
    pub closed spec fn imported_names(&self) -> Set<Seq<char>> {
        self.used_dependencies@
    }

    /// The report as it stands.
    pub closed spec fn reported(&self) -> AnalysisReport {
        self.report
    }

    /// The sets are in order, and the entry point was never recorded as
    /// declared.
    pub closed spec fn wf(&self) -> bool {
        &&& self.declared_items.wf()
        &&& self.used_items.wf()
        &&& self.dependencies.wf()
        &&& self.used_dependencies.wf()
        &&& !self.declared_items@.contains(function_key(entry_point()))
    }

    /// `self` has gathered what `before` had and these three sets besides;
    /// nothing else differs.
    pub open spec fn extends(
        &self,
        before: CodeAnalyzer,
        declared: Set<Seq<char>>,
        used: Set<Seq<char>>,
        imported: Set<Seq<char>>,
    ) -> bool {
        &&& self.declared_keys() == before.declared_keys() + declared
        &&& self.used_keys() == before.used_keys() + used
        &&& self.imported_names() == before.imported_names() + imported
        &&& self.dependency_names() == before.dependency_names()
        &&& self.reported() == before.reported()
    }

    /// The report is the reconciliation of what has been gathered.
    pub open spec fn is_reconciled(&self) -> bool {
        reconciles(
            self.reported(),
            self.declared_keys(),
            self.used_keys(),
            self.dependency_names(),
            self.imported_names(),
        )
    }

    /// `self` is what an analysis of `files`, with these dependencies, makes of
    /// `before`: it has gathered what they say besides what `before` had, and
    /// its report is the reconciliation of all of it.
    pub open spec fn is_analysis_of(
        &self,
        before: CodeAnalyzer,
        dependencies: Seq<String>,
        files: Seq<SourceFile>,
    ) -> bool {
        &&& self.declared_keys() == before.declared_keys() + declared_in(files)
        &&& self.used_keys() == before.used_keys() + called_in(files)
        &&& self.imported_names() == before.imported_names() + imported_in(files)
        &&& self.dependency_names() == before.dependency_names() + texts(dependencies).to_set()
        &&& self.is_reconciled()
    }

    /// To gather nothing changes nothing.
    proof fn lemma_nothing_added(&self)
        ensures
            self.extends(*self, Set::empty(), Set::empty(), Set::empty()),
    {
        assert(self.declared_keys() + Set::<Seq<char>>::empty() =~= self.declared_keys());
        assert(self.used_keys() + Set::<Seq<char>>::empty() =~= self.used_keys());
        assert(self.imported_names() + Set::<Seq<char>>::empty() =~= self.imported_names());
    }

    /// An analyzer that has seen nothing, with an empty report.
    pub fn new() -> (analyzer: Self)
        ensures
            analyzer.wf(),
            analyzer.declared_keys() == Set::<Seq<char>>::empty(),
            analyzer.used_keys() == Set::<Seq<char>>::empty(),
            analyzer.dependency_names() == Set::<Seq<char>>::empty(),
            analyzer.imported_names() == Set::<Seq<char>>::empty(),
            analyzer.reported().unused_dependencies@.len() == 0,
            analyzer.reported().unused_functions@.len() == 0,
            analyzer.reported().unused_modules@.len() == 0,
    {
        CodeAnalyzer {
            report: AnalysisReport::new(),
            declared_items: StringSet::new(),
            used_items: StringSet::new(),
            dependencies: StringSet::new(),
            used_dependencies: StringSet::new(),
        }
    }

    /// Records the declaration that a node makes: a function other than the
    /// entry point, or a module.
    pub fn visit_item(&mut self, kind: &NodeKind)
        requires
            old(self).wf(),
        ensures
            final(self).wf(),
            final(self).extends(*old(self), declarations_of(*kind), Set::empty(), Set::empty()),
    {
        proof {
            self.lemma_nothing_added();
        }
        match kind {
            NodeKind::Function { name } => {
                match compare(name.as_str(), ENTRY_POINT) {
                    Relation::Same => {},
                    _ => {
                        let key = function_key_of(name.as_str());
                        proof {
                            lemma_keys_distinct(name@, entry_point());
                            assert(self.declared_keys().insert(key@) =~= self.declared_keys()
                                + set![key@]);
                        }
                        self.declared_items.insert(key);
                    },
                }
            },
            NodeKind::Module { name } => {
                let key = module_key_of(name.as_str());
                proof {
                    lemma_keys_distinct(entry_point(), name@);
                    assert(self.declared_keys().insert(key@) =~= self.declared_keys()
                        + set![key@]);
                }
                self.declared_items.insert(key);
            },
            _ => {},
        }
    }

    /// Records the function that a node calls directly: the last segment of
    /// the path it calls.
    pub fn visit_expr(&mut self, kind: &NodeKind)
        requires
            old(self).wf(),
        ensures
            final(self).wf(),
            final(self).extends(*old(self), Set::empty(), calls_of(*kind), Set::empty()),
    {
        proof {
            self.lemma_nothing_added();
        }
        match kind {
            NodeKind::Call { callee: Callee::Path { segments } } => {
                if segments.len() > 0 {
                    let last = &segments[segments.len() - 1];
                    let key = function_key_of(last.as_str());
                    proof {
                        assert(self.used_keys().insert(key@) =~= self.used_keys() + set![key@]);
                    }
                    self.used_items.insert(key);
                }
            },
            _ => {},
        }
    }

    /// Records one name that an import statement begins with.
    fn record_import(&mut self, name: &String)
        requires
            old(self).wf(),
        ensures
            final(self).wf(),
            final(self).extends(*old(self), Set::empty(), Set::empty(), set![name@]),
    {
        proof {
            self.lemma_nothing_added();
            assert(self.imported_names().insert(name@) =~= self.imported_names() + set![name@]);
        }
        self.used_dependencies.insert(name.clone());
    }

    /// Records the first segment of every path that an import tree imports.
    pub fn visit_use_tree(&mut self, tree: &UseTree)
        requires
            old(self).wf(),
        ensures
            final(self).wf(),
            final(self).extends(*old(self), Set::empty(), Set::empty(), import_roots(*tree)),
        decreases tree,
    {
        proof {
            self.lemma_nothing_added();
        }
        match tree {
            UseTree::Path { ident, tree: _ }
            | UseTree::Name { ident }
            | UseTree::Rename { ident, rename: _ } => {
                proof {
                    lemma_import_roots_of_leaf(*tree);
                }
                self.record_import(ident);
            },
            UseTree::Glob => {
                proof {
                    lemma_import_roots_of_leaf(*tree);
                }
            },
            UseTree::Group { items } => {
                proof {
                    lemma_import_roots_of_group(*tree);
                    assert(group_roots(items@.take(0)) =~= Set::<Seq<char>>::empty());
                }
                let mut i: usize = 0;
                while i < items.len()
                    invariant
                        tree is Group,
                        tree->items == *items,
                        i <= items@.len(),
                        self.wf(),
                        self.extends(
                            *old(self),
                            Set::empty(),
                            Set::empty(),
                            group_roots(items@.take(i as int)),
                        ),
                    decreases items@.len() - i,
                {
                    self.visit_use_tree(&items[i]);
                    proof {
                        lemma_group_roots_step(items@, i as int);
                        assert(self.declared_keys() =~= old(self).declared_keys());
                        assert(self.used_keys() =~= old(self).used_keys());
                        assert(self.imported_names() =~= old(self).imported_names() + group_roots(
                            items@.take(i + 1),
                        ));
                        old(self).lemma_nothing_added();
                    }
                    i += 1;
                }
                proof {
                    assert(items@.take(items@.len() as int) =~= items@);
                }
            },
        }
    }

    /// Gathers what a tree says: of its root, and of all that is nested in it.
    pub fn visit_node(&mut self, node: &SyntaxNode)
        requires
            old(self).wf(),
        ensures
            final(self).wf(),
            final(self).extends(
                *old(self),
                node_signals(Signal::Declaration, *node),
                node_signals(Signal::Usage, *node),
                node_signals(Signal::Import, *node),
            ),
        decreases node,
    {
        self.visit_item(&node.kind);
        self.visit_expr(&node.kind);
        match &node.kind {
            NodeKind::Import { tree } => {
                self.visit_use_tree(tree);
            },
            _ => {
                proof {
                    assert(self.imported_names() + Set::<Seq<char>>::empty()
                        =~= self.imported_names());
                }
            },
        }
        let ghost at_root = *self;
        assert(at_root.extends(
            *old(self),
            emitted(Signal::Declaration, node.kind),
            emitted(Signal::Usage, node.kind),
            emitted(Signal::Import, node.kind),
        )) by {
            assert(old(self).declared_keys() + declarations_of(node.kind) + Set::<
                Seq<char>,
            >::empty() =~= old(self).declared_keys() + declarations_of(node.kind));
            assert(old(self).used_keys() + Set::<Seq<char>>::empty() + calls_of(node.kind)
                =~= old(self).used_keys() + calls_of(node.kind));
            assert(old(self).imported_names() + Set::<Seq<char>>::empty() + Set::<
                Seq<char>,
            >::empty() + imports_of(node.kind) =~= old(self).imported_names() + imports_of(
                node.kind,
            ));
        }
        self.visit_forest(&node.children);
        proof {
            lemma_node_signals(Signal::Declaration, *node);
            lemma_node_signals(Signal::Usage, *node);
            lemma_node_signals(Signal::Import, *node);
            assert(self.declared_keys() =~= old(self).declared_keys() + node_signals(
                Signal::Declaration,
                *node,
            ));
            assert(self.used_keys() =~= old(self).used_keys() + node_signals(
                Signal::Usage,
                *node,
            ));
            assert(self.imported_names() =~= old(self).imported_names() + node_signals(
                Signal::Import,
                *node,
            ));
        }
    }

    /// Gathers what several trees say, one after the other.
    pub fn visit_forest(&mut self, nodes: &Vec<SyntaxNode>)
        requires
            old(self).wf(),
        ensures
            final(self).wf(),
            final(self).extends(
                *old(self),
                forest_signals(Signal::Declaration, nodes@),
                forest_signals(Signal::Usage, nodes@),
                forest_signals(Signal::Import, nodes@),
            ),
        decreases nodes@,
    {
        proof {
            lemma_forest_signals_empty(Signal::Declaration, nodes@.take(0));
            lemma_forest_signals_empty(Signal::Usage, nodes@.take(0));
            lemma_forest_signals_empty(Signal::Import, nodes@.take(0));
            self.lemma_nothing_added();
        }
        let mut i: usize = 0;
        while i < nodes.len()
            invariant
                i <= nodes@.len(),
                self.wf(),
                self.extends(
                    *old(self),
                    forest_signals(Signal::Declaration, nodes@.take(i as int)),
                    forest_signals(Signal::Usage, nodes@.take(i as int)),
                    forest_signals(Signal::Import, nodes@.take(i as int)),
                ),
            decreases nodes@.len() - i,
        {
            self.visit_node(&nodes[i]);
            proof {
                lemma_forest_signals_step(Signal::Declaration, nodes@, i as int);
                lemma_forest_signals_step(Signal::Usage, nodes@, i as int);
                lemma_forest_signals_step(Signal::Import, nodes@, i as int);
                assert(self.declared_keys() =~= old(self).declared_keys() + forest_signals(
                    Signal::Declaration,
                    nodes@.take(i + 1),
                ));
                assert(self.used_keys() =~= old(self).used_keys() + forest_signals(
                    Signal::Usage,
                    nodes@.take(i + 1),
                ));
                assert(self.imported_names() =~= old(self).imported_names() + forest_signals(
                    Signal::Import,
                    nodes@.take(i + 1),
                ));
            }
            i += 1;
        }
        proof {
            assert(nodes@.take(nodes@.len() as int) =~= nodes@);
        }
    }

    /// Gathers what one source file declares, calls and imports.
    pub fn analyze_file(&mut self, file: &SourceFile)
        requires
            old(self).wf(),
        ensures
            final(self).wf(),
            final(self).extends(
                *old(self),
                forest_signals(Signal::Declaration, file.items@),
                forest_signals(Signal::Usage, file.items@),
                forest_signals(Signal::Import, file.items@),
            ),
    {
        self.visit_forest(&file.items);
    }

    /// Records the names of the project's dependencies.
    pub fn add_dependencies(&mut self, names: &[String])
        requires
            old(self).wf(),
        ensures
            final(self).wf(),
            final(self).dependency_names() == old(self).dependency_names() + texts(names@).to_set(),
            final(self).declared_keys() == old(self).declared_keys(),
            final(self).used_keys() == old(self).used_keys(),
            final(self).imported_names() == old(self).imported_names(),
            final(self).reported() == old(self).reported(),
    {
        proof {
            assert(texts(names@.take(0)).to_set() =~= Set::<Seq<char>>::empty());
            assert(self.dependency_names() + Set::<Seq<char>>::empty() =~= self.dependency_names());
        }
        let mut i: usize = 0;
        while i < names.len()
            invariant
                i <= names@.len(),
                self.wf(),
                self.declared_keys() == old(self).declared_keys(),
                self.used_keys() == old(self).used_keys(),
                self.imported_names() == old(self).imported_names(),
                self.reported() == old(self).reported(),
                self.dependency_names() == old(self).dependency_names() + texts(
                    names@.take(i as int),
                ).to_set(),
            decreases names@.len() - i,
        {
            let ghost seen = texts(names@.take(i as int));
            self.dependencies.insert(names[i].clone());
            proof {
                let seen_next = texts(names@.take(i + 1));
                assert(seen_next =~= seen.push(names@[i as int]@));
                assert forall|k: Seq<char>| seen_next.to_set().contains(k) == seen.to_set().insert(
                    names@[i as int]@,
                ).contains(k) by {
                    if seen_next.contains(k) {
                        let j = choose|j: int| 0 <= j < seen_next.len() && seen_next[j] == k;
                        if j < i {
                            assert(seen[j] == k);
                        }
                    }
                    if seen.contains(k) {
                        let j = choose|j: int| 0 <= j < seen.len() && seen[j] == k;
                        assert(seen_next[j] == k);
                    }
                    if k == names@[i as int]@ {
                        assert(seen_next[i as int] == k);
                    }
                }
                assert(self.dependency_names() =~= old(self).dependency_names()
                    + seen_next.to_set());
            }
            i += 1;
        }
        proof {
            assert(names@.take(names@.len() as int) =~= names@);
        }
    }

    /// Analyses a project: records its dependencies, gathers what each of its
    /// files declares, calls and imports, and reconciles the lot into the
    /// report.
    pub fn analyze_project(&mut self, dependencies: &[String], files: &[SourceFile])
        requires
            old(self).wf(),
        ensures
            final(self).wf(),
            final(self).is_analysis_of(*old(self), dependencies@, files@),
    {
        self.add_dependencies(dependencies);
        proof {
            lemma_project_signals_empty(Signal::Declaration, files@.take(0));
            lemma_project_signals_empty(Signal::Usage, files@.take(0));
            lemma_project_signals_empty(Signal::Import, files@.take(0));
            self.lemma_nothing_added();
        }
        let ghost start = *self;
        let mut i: usize = 0;
        while i < files.len()
            invariant
                i <= files@.len(),
                self.wf(),
                self.extends(
                    start,
                    project_signals(Signal::Declaration, files@.take(i as int)),
                    project_signals(Signal::Usage, files@.take(i as int)),
                    project_signals(Signal::Import, files@.take(i as int)),
                ),
            decreases files@.len() - i,
        {
            self.analyze_file(&files[i]);
            proof {
                lemma_project_signals_step(Signal::Declaration, files@, i as int);
                lemma_project_signals_step(Signal::Usage, files@, i as int);
                lemma_project_signals_step(Signal::Import, files@, i as int);
                assert(self.declared_keys() =~= start.declared_keys() + project_signals(
                    Signal::Declaration,
                    files@.take(i + 1),
                ));
                assert(self.used_keys() =~= start.used_keys() + project_signals(
                    Signal::Usage,
                    files@.take(i + 1),
                ));
                assert(self.imported_names() =~= start.imported_names() + project_signals(
                    Signal::Import,
                    files@.take(i + 1),
                ));
            }
            i += 1;
        }
        proof {
            assert(files@.take(files@.len() as int) =~= files@);
        }
        self.find_unused_items();
    }

    /// The keys of the functions and modules seen declared so far, in
    /// ascending order.
    pub fn declared_items(&self) -> (keys: &Vec<String>)
        requires
            self.wf(),
        ensures
            lists_exactly(keys@, self.declared_keys()),
    {
        self.declared_items.entries()
    }

    /// The keys of the functions seen called so far, in ascending order.
    pub fn used_items(&self) -> (keys: &Vec<String>)
        requires
            self.wf(),
        ensures
            lists_exactly(keys@, self.used_keys()),
    {
        self.used_items.entries()
    }

    /// The names of the dependencies given so far, in ascending order.
    pub fn dependencies(&self) -> (names: &Vec<String>)
        requires
            self.wf(),
        ensures
            lists_exactly(names@, self.dependency_names()),
    {
        self.dependencies.entries()
    }

    /// The names that import statements seen so far begin with, in ascending
    /// order.
    pub fn used_dependencies(&self) -> (names: &Vec<String>)
        requires
            self.wf(),
        ensures
            lists_exactly(names@, self.imported_names()),
    {
        self.used_dependencies.entries()
    }

    /// The report of the last reconciliation.
    pub fn report(&self) -> (report: &AnalysisReport)
        ensures
            *report == self.reported(),
    {
        &self.report
    }

    /// Reconciles what has been gathered into the report, which replaces the
    /// one held before.
    pub fn find_unused_items(&mut self)
        requires
            old(self).wf(),
        ensures
            final(self).wf(),
            final(self).declared_keys() == old(self).declared_keys(),
            final(self).used_keys() == old(self).used_keys(),
            final(self).dependency_names() == old(self).dependency_names(),
            final(self).imported_names() == old(self).imported_names(),
            final(self).is_reconciled(),
    {
        self.report = reconcile(
            &self.declared_items,
            &self.used_items,
            &self.dependencies,
            &self.used_dependencies,
        );
    }
}

/// Some file of the project defines a function called `name`.
pub open spec fn declares_function(files: Seq<SourceFile>, name: Seq<char>) -> bool {
    exists|n: SyntaxNode|
        #[trigger] within_project(n, files) && (n.kind matches NodeKind::Function { name: f }
            && f@ == name)
}

/// Some file of the project calls a path that ends in `name`.
pub open spec fn calls_function(files: Seq<SourceFile>, name: Seq<char>) -> bool {
    exists|n: SyntaxNode|
        #[trigger] within_project(n, files) && (n.kind matches NodeKind::Call {
            callee: Callee::Path { segments },
        } && segments@.len() > 0 && segments@.last()@ == name)
}

/// Some path expression of the project ends in `name`: the function is named
/// somewhere, be it to call it, to store it, to pass it on or to return it.
pub open spec fn mentions(files: Seq<SourceFile>, name: Seq<char>) -> bool {
    exists|n: SyntaxNode|
        #[trigger] within_project(n, files) && (n.kind matches NodeKind::PathRef { segments }
            && segments@.len() > 0 && segments@.last()@ == name)
}

/// Some import statement of the project begins with `name`.
pub open spec fn imports(files: Seq<SourceFile>, name: Seq<char>) -> bool {
    exists|n: SyntaxNode|
        #[trigger] within_project(n, files) && (n.kind matches NodeKind::Import { tree }
            && imports_from(tree, name))
}

/// Where nothing is declared and nothing depended on, nothing is reported.
pub proof fn lemma_nothing_declared_nothing_reported(
    report: AnalysisReport,
    used: Set<Seq<char>>,
    used_dependencies: Set<Seq<char>>,
)
    requires
        reconciles(report, Set::empty(), used, Set::empty(), used_dependencies),
    ensures
        report.unused_dependencies@.len() == 0,
        report.unused_functions@.len() == 0,
        report.unused_modules@.len() == 0,
{
    let dependencies = texts(report.unused_dependencies@);
    let functions = texts(report.unused_functions@);
    let modules = texts(report.unused_modules@);
    if dependencies.len() > 0 {
        assert(dependencies.contains(dependencies[0]));
        assert(dependencies.to_set().contains(dependencies[0]));
    }
    if functions.len() > 0 {
        assert(functions.contains(functions[0]));
        assert(functions.to_set().contains(functions[0]));
    }
    if modules.len() > 0 {
        assert(modules.contains(modules[0]));
        assert(modules.to_set().contains(modules[0]));
    }
}

/// A project without files declares, calls and imports nothing.
pub proof fn lemma_empty_project(files: Seq<SourceFile>)
    requires
        files.len() == 0,
    ensures
        declared_in(files) == Set::<Seq<char>>::empty(),
        called_in(files) == Set::<Seq<char>>::empty(),
        imported_in(files) == Set::<Seq<char>>::empty(),
{
    lemma_project_signals_empty(Signal::Declaration, files);
    lemma_project_signals_empty(Signal::Usage, files);
    lemma_project_signals_empty(Signal::Import, files);
}

/// A function that the project declares, other than the entry point, is
/// reported as unused exactly if no call in the project names it.
pub proof fn lemma_function_reported_iff_uncalled(
    report: AnalysisReport,
    files: Seq<SourceFile>,
    dependencies: Set<Seq<char>>,
    name: Seq<char>,
)
    requires
        reconciles(report, declared_in(files), called_in(files), dependencies, imported_in(files)),
        declares_function(files, name),
        name != entry_point(),
    ensures
        texts(report.unused_functions@).contains(function_key(name)) <==> !calls_function(
            files,
            name,
        ),
{
    let key = function_key(name);
    let listed = texts(report.unused_functions@);
    assert(listed.to_set().contains(key) == listed.contains(key));
    lemma_keys_distinct(name, name);
    let d = choose|n: SyntaxNode|
        #[trigger] within_project(n, files) && (n.kind matches NodeKind::Function { name: f }
            && f@ == name);
    assert(emitted(Signal::Declaration, d.kind).contains(key));
    assert(declared_in(files).contains(key));
    if calls_function(files, name) {
        let c = choose|n: SyntaxNode|
            #[trigger] within_project(n, files) && (n.kind matches NodeKind::Call {
                callee: Callee::Path { segments },
            } && segments@.len() > 0 && segments@.last()@ == name);
        assert(emitted(Signal::Usage, c.kind).contains(key));
        assert(called_in(files).contains(key));
    }
    if called_in(files).contains(key) {
        let c = choose|n: SyntaxNode|
            within_project(n, files) && #[trigger] emitted(Signal::Usage, n.kind).contains(key);
        match c.kind {
            NodeKind::Call { callee: Callee::Path { segments } } => {
                lemma_keys_distinct(segments@.last()@, name);
            },
            _ => {},
        }
        assert(calls_function(files, name));
    }
}

/// The entry point is never reported, whether or not anything calls it.
pub proof fn lemma_entry_point_never_reported(
    report: AnalysisReport,
    files: Seq<SourceFile>,
    used: Set<Seq<char>>,
    dependencies: Set<Seq<char>>,
    used_dependencies: Set<Seq<char>>,
)
    requires
        reconciles(report, declared_in(files), used, dependencies, used_dependencies),
    ensures
        !declared_in(files).contains(function_key(entry_point())),
        !texts(report.unused_functions@).contains(function_key(entry_point())),
{
    let key = function_key(entry_point());
    let listed = texts(report.unused_functions@);
    assert(listed.to_set().contains(key) == listed.contains(key));
    if declared_in(files).contains(key) {
        let n = choose|n: SyntaxNode|
            within_project(n, files) && #[trigger] emitted(Signal::Declaration, n.kind).contains(
                key,
            );
        match n.kind {
            NodeKind::Function { name } => {
                lemma_keys_distinct(name@, entry_point());
            },
            NodeKind::Module { name } => {
                lemma_keys_distinct(entry_point(), name@);
            },
            _ => {},
        }
    }
}

/// A dependency of the project is reported as unused exactly if no import
/// statement of the project begins with its name.
pub proof fn lemma_dependency_reported_iff_not_imported(
    report: AnalysisReport,
    files: Seq<SourceFile>,
    declared: Set<Seq<char>>,
    used: Set<Seq<char>>,
    dependencies: Set<Seq<char>>,
    name: Seq<char>,
)
    requires
        reconciles(report, declared, used, dependencies, imported_in(files)),
        dependencies.contains(name),
    ensures
        texts(report.unused_dependencies@).contains(name) <==> !imports(files, name),
{
    let listed = texts(report.unused_dependencies@);
    assert(listed.to_set().contains(name) == listed.contains(name));
    if imports(files, name) {
        let n = choose|n: SyntaxNode|
            #[trigger] within_project(n, files) && (n.kind matches NodeKind::Import { tree }
                && imports_from(tree, name));
        assert(emitted(Signal::Import, n.kind).contains(name));
        assert(imported_in(files).contains(name));
    }
    if imported_in(files).contains(name) {
        let n = choose|n: SyntaxNode|
            within_project(n, files) && #[trigger] emitted(Signal::Import, n.kind).contains(name);
        assert(imports(files, name));
    }
}

/// Gathering only adds: what an analyzer held before a file or a project was
/// analysed, it holds afterwards.
pub proof fn lemma_gathering_only_adds(
    before: CodeAnalyzer,
    after: CodeAnalyzer,
    declared: Set<Seq<char>>,
    used: Set<Seq<char>>,
    imported: Set<Seq<char>>,
)
    requires
        after.extends(before, declared, used, imported),
    ensures
        before.declared_keys().subset_of(after.declared_keys()),
        before.used_keys().subset_of(after.used_keys()),
        before.imported_names().subset_of(after.imported_names()),
        before.dependency_names() == after.dependency_names(),
{
}

/// The report depends on nothing but the four sets: two reconciliations of
/// the same sets read the same, entry by entry.
pub proof fn lemma_report_is_determined(
    first: AnalysisReport,
    second: AnalysisReport,
    declared: Set<Seq<char>>,
    used: Set<Seq<char>>,
    dependencies: Set<Seq<char>>,
    used_dependencies: Set<Seq<char>>,
)
    requires
        reconciles(first, declared, used, dependencies, used_dependencies),
        reconciles(second, declared, used, dependencies, used_dependencies),
    ensures
        first.same_entries(second),
{
    lemma_listing_unique(texts(first.unused_dependencies@), texts(second.unused_dependencies@));
    lemma_listing_unique(texts(first.unused_functions@), texts(second.unused_functions@));
    lemma_listing_unique(texts(first.unused_modules@), texts(second.unused_modules@));
}

/// Analysing an unchanged project a second time gathers nothing new and
/// leaves the report as it read after the first time.
pub proof fn lemma_analysis_is_idempotent(
    before: CodeAnalyzer,
    once: CodeAnalyzer,
    twice: CodeAnalyzer,
    dependencies: Seq<String>,
    files: Seq<SourceFile>,
)
    requires
        once.is_analysis_of(before, dependencies, files),
        twice.is_analysis_of(once, dependencies, files),
    ensures
        twice.declared_keys() == once.declared_keys(),
        twice.used_keys() == once.used_keys(),
        twice.dependency_names() == once.dependency_names(),
        twice.imported_names() == once.imported_names(),
        twice.reported().same_entries(once.reported()),
{
    assert(twice.declared_keys() =~= once.declared_keys());
    assert(twice.used_keys() =~= once.used_keys());
    assert(twice.dependency_names() =~= once.dependency_names());
    assert(twice.imported_names() =~= once.imported_names());
    lemma_report_is_determined(
        twice.reported(),
        once.reported(),
        once.declared_keys(),
        once.used_keys(),
        once.dependency_names(),
        once.imported_names(),
    );
}

/// Two analyses of the same project, each from a fresh start, report the
/// same.
pub proof fn lemma_analysis_is_repeatable(
    start: CodeAnalyzer,
    first: CodeAnalyzer,
    second: CodeAnalyzer,
    dependencies: Seq<String>,
    files: Seq<SourceFile>,
)
    requires
        first.is_analysis_of(start, dependencies, files),
        second.is_analysis_of(start, dependencies, files),
    ensures
        first.reported().same_entries(second.reported()),
{
    lemma_report_is_determined(
        first.reported(),
        second.reported(),
        first.declared_keys(),
        first.used_keys(),
        first.dependency_names(),
        first.imported_names(),
    );
}

/// A function that is declared and named somewhere as a value, but called
/// nowhere, is reported as unused all the same.
pub proof fn lemma_function_used_as_value_is_reported(
    report: AnalysisReport,
    files: Seq<SourceFile>,
    dependencies: Set<Seq<char>>,
    name: Seq<char>,
)
    requires
        reconciles(report, declared_in(files), called_in(files), dependencies, imported_in(files)),
        declares_function(files, name),
        name != entry_point(),
        mentions(files, name),
        !calls_function(files, name),
    ensures
        texts(report.unused_functions@).contains(function_key(name)),
{
    lemma_function_reported_iff_uncalled(report, files, dependencies, name);
}

/// An analyzer never reports the entry point, whatever it has been given.
pub proof fn lemma_analyzer_spares_entry_point(analyzer: CodeAnalyzer)
    requires
        analyzer.wf(),
        analyzer.is_reconciled(),
    ensures
        !texts(analyzer.reported().unused_functions@).contains(function_key(entry_point())),
{
    let listed = texts(analyzer.reported().unused_functions@);
    assert(listed.to_set().contains(function_key(entry_point())) == listed.contains(
        function_key(entry_point()),
    ));
}

} // verus!
