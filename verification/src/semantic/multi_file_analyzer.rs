//! Analysis of several source files together: a first pass collects each
//! file's module name and exports into a shared module registry, a second
//! pass analyzes every file with that registry, so that imports between the
//! files resolve.

use vstd::prelude::*;
use std::collections::HashMap;
use std::collections::hash_map::RandomState;
use vstd::std_specs::hash::{obeys_key_model, builds_valid_hashers};
use crate::ast::{Ast, AstNode, NodeType, sibling_list};
use crate::limits::CompilerLimits;
use crate::lexer::{lex, all_blank};
use crate::parser::parse;
use crate::text::concat2;
use super::symbols::{SemanticError, SymbolKind, opt_text};
use super::module_registry::{ModuleExportedSymbol, ModuleRegistry};
use super::modules::{module_name_of, split_module_path};
use super::analyzer::SemanticAnalyzer;

verus! {

/// A source file to be analyzed
pub struct SourceFile {
    pub name: String,
    pub source: String,
}

/// The result of analyzing a single file
pub struct FileAnalysisResult {
    /// Semantic errors detected in this file
    pub errors: Vec<SemanticError>,
    /// The module name declared in this file (if any)
    pub module_name: Option<String>,
}

/// Two-pass analyzer of a batch of source files.
pub struct MultiFileAnalyzer {
    sources: Vec<SourceFile>,
    limits: CompilerLimits,
}

/// What the first pass learns of a file: its module name (if any), the
/// names it exports, and whether its module is a submodule.
pub type ModuleInfo = (Option<Seq<char>>, Seq<Seq<char>>, bool);

/// The character sequences of a list of strings.
pub open spec fn strings_view(v: Seq<String>) -> Seq<Seq<char>> {
    Seq::new(v.len(), |i: int| v[i]@)
}

/// The token texts of the listed nodes, skipping nodes without a token.
pub open spec fn token_texts(nodes: Seq<AstNode>, ids: Seq<usize>) -> Seq<Seq<char>>
    decreases ids.len(),
{
    if ids.len() == 0 {
        Seq::empty()
    } else {
        let prev = token_texts(nodes, ids.drop_last());
        let c = ids.last();
        if c < nodes.len() && nodes[c as int].token is Some {
            prev.push(nodes[c as int].token->0.text@)
        } else {
            prev
        }
    }
}

/// The first child of node `c`, if `c` is a node.
pub open spec fn first_child_spec(nodes: Seq<AstNode>, c: usize) -> Option<usize> {
    if c < nodes.len() {
        nodes[c as int].first_child
    } else {
        None
    }
}

/// One top-level statement's contribution to a file's module information:
/// a module declaration sets the module name (a leading '.' marks a
/// submodule), an export statement appends the exported names.
pub open spec fn module_info_step(nodes: Seq<AstNode>, acc: ModuleInfo, c: usize) -> ModuleInfo {
    if c < nodes.len() {
        match nodes[c as int].node_type {
            NodeType::ModuleDecl => match nodes[c as int].first_child {
                Some(p) => if p < nodes.len() && nodes[p as int].token is Some {
                    let (name, sub) = module_name_of(nodes[p as int].token->0.text@);
                    (Some(name), acc.1, acc.2 || sub)
                } else {
                    acc
                },
                None => acc,
            },
            NodeType::Export => match nodes[c as int].first_child {
                Some(l) => (
                    acc.0,
                    acc.1 + token_texts(nodes, sibling_list(nodes, first_child_spec(nodes, l), nodes.len())),
                    acc.2,
                ),
                None => acc,
            },
            _ => acc,
        }
    } else {
        acc
    }
}

/// The module information gathered from the listed top-level statements.
pub open spec fn module_info(nodes: Seq<AstNode>, tops: Seq<usize>) -> ModuleInfo
    decreases tops.len(),
{
    if tops.len() == 0 {
        (None, Seq::empty(), false)
    } else {
        module_info_step(nodes, module_info(nodes, tops.drop_last()), tops.last())
    }
}

/// The module information of a whole tree: that of the children of its root.
pub open spec fn ast_module_info(ast: Ast) -> ModuleInfo {
    match ast.root {
        Some(r) => module_info(ast.nodes@, ast.child_list(r)),
        None => (None, Seq::empty(), false),
    }
}

/// Lightweight first-pass scan of a tree: the module name, the exported
/// names and whether the module is a submodule, read from the top-level
/// statements without any type checking.
pub fn extract_module_info(ast: &Ast) -> (r: (Option<String>, Vec<String>, bool))
    ensures
        (opt_text(r.0), strings_view(r.1@), r.2) == ast_module_info(*ast),
{
    let root = match ast.root {
        Some(r) => r,
        None => {
            let r: (Option<String>, Vec<String>, bool) = (None, Vec::new(), false);
            assert(strings_view(r.1@) =~= Seq::<Seq<char>>::empty());
            return r;
        },
    };
    let tops = ast.children(root);
    let mut module_name: Option<String> = None;
    let mut exports: Vec<String> = Vec::new();
    let mut is_submodule = false;
    let mut k: usize = 0;
    assert(tops@.subrange(0, 0) =~= Seq::<usize>::empty());
    assert(strings_view(exports@) =~= Seq::<Seq<char>>::empty());
    while k < tops.len()
        invariant
            k <= tops@.len(),
            tops@ == ast.child_list(root),
            (opt_text(module_name), strings_view(exports@), is_submodule) == module_info(
                ast.nodes@,
                tops@.subrange(0, k as int),
            ),
        decreases tops@.len() - k,
    {
        let c = tops[k];
        let ghost acc = (opt_text(module_name), strings_view(exports@), is_submodule);
        assert(tops@.subrange(0, k as int + 1).drop_last() =~= tops@.subrange(0, k as int));
        match ast.node_type_at(c) {
            Some(NodeType::ModuleDecl) => {
                match ast.first_child_of(c) {
                    Some(p) => match ast.node_text(p) {
                        Some(text) => {
                            let (name, sub) = split_module_path(text);
                            module_name = Some(name);
                            is_submodule = is_submodule || sub;
                        },
                        None => {},
                    },
                    None => {},
                }
            },
            Some(NodeType::Export) => {
                match ast.first_child_of(c) {
                    Some(l) => {
                        let idents = ast.children(l);
                        let ghost base = strings_view(exports@);
                        let mut j: usize = 0;
                        assert(idents@.subrange(0, 0) =~= Seq::<usize>::empty());
                        assert(base + Seq::<Seq<char>>::empty() =~= base);
                        while j < idents.len()
                            invariant
                                j <= idents@.len(),
                                idents@ == ast.child_list(l),
                                strings_view(exports@) == base + token_texts(
                                    ast.nodes@,
                                    idents@.subrange(0, j as int),
                                ),
                            decreases idents@.len() - j,
                        {
                            let id = idents[j];
                            assert(idents@.subrange(0, j as int + 1).drop_last() =~= idents@.subrange(0, j as int));
                            let ghost before = exports@;
                            match ast.node_text(id) {
                                Some(name) => {
                                    exports.push(String::from_str(name));
                                    assert(strings_view(exports@) =~= strings_view(before).push(name@));
                                },
                                None => {},
                            }
                            j = j + 1;
                            assert(base + token_texts(ast.nodes@, idents@.subrange(0, j as int)) =~= strings_view(exports@));
                        }
                        assert(idents@.subrange(0, idents@.len() as int) =~= idents@);
                    },
                    None => {},
                }
            },
            _ => {},
        }
        k = k + 1;
    }
    assert(tops@.subrange(0, tops@.len() as int) =~= tops@);
    (module_name, exports, is_submodule)
}

/// The first-pass information of every file: (module name, is submodule,
/// exported names). `None` stands for a file without a module.
pub open spec fn declared_module(info: (Option<String>, bool, Vec<String>)) -> Option<Seq<char>> {
    opt_text(info.0)
}

/// Builds the registry of the batch: every declared module is registered,
/// submodules as submodules of the batch's main module (the module of the
/// first file that does not declare a submodule, if that file has one),
/// and each module gets its exported names.
pub fn build_registry(infos: &Vec<(Option<String>, bool, Vec<String>)>) -> (r: ModuleRegistry)
    ensures
        forall|i: int|
            0 <= i < infos@.len() && #[trigger] declared_module(infos@[i]) is Some ==> r@.modules.contains_key(
                declared_module(infos@[i])->0,
            ),
        forall|i: int|
            0 <= i < infos@.len() && #[trigger] declared_module(infos@[i]) is Some && infos@[i].1
                ==> r@.submodules.contains(declared_module(infos@[i])->0),
{
    let mut main_module: Option<String> = None;
    let mut i: usize = 0;
    while i < infos.len()
        invariant
            i <= infos@.len(),
        decreases infos@.len() - i,
    {
        if !infos[i].1 {
            main_module = match &infos[i].0 {
                Some(n) => Some(n.clone()),
                None => None,
            };
            break;
        }
        i = i + 1;
    }
    let mut registry = ModuleRegistry::new();
    let mut i: usize = 0;
    while i < infos.len()
        invariant
            i <= infos@.len(),
            forall|j: int|
                0 <= j < i && #[trigger] declared_module(infos@[j]) is Some ==> registry@.modules.contains_key(
                    declared_module(infos@[j])->0,
                ),
            forall|j: int|
                0 <= j < i && #[trigger] declared_module(infos@[j]) is Some && infos@[j].1
                    ==> registry@.submodules.contains(declared_module(infos@[j])->0),
        decreases infos@.len() - i,
    {
        match &infos[i].0 {
            Some(name) => {
                if infos[i].1 {
                    match &main_module {
                        Some(parent) => registry.register_submodule_with_parent(name.clone(), parent.clone()),
                        None => registry.register_submodule(name.clone()),
                    }
                } else {
                    registry.register_module(name.clone());
                }
                let exports = &infos[i].2;
                let mut k: usize = 0;
                while k < exports.len()
                    invariant
                        k <= exports@.len(),
                        registry@.modules.contains_key(name@),
                        infos@[i as int].1 ==> registry@.submodules.contains(name@),
                        forall|j: int|
                            0 <= j < i && #[trigger] declared_module(infos@[j]) is Some
                                ==> registry@.modules.contains_key(declared_module(infos@[j])->0),
                        forall|j: int|
                            0 <= j < i && #[trigger] declared_module(infos@[j]) is Some && infos@[j].1
                                ==> registry@.submodules.contains(declared_module(infos@[j])->0),
                    decreases exports@.len() - k,
                {
                    registry.add_export(
                        name.as_str(),
                        ModuleExportedSymbol::new(exports[k].clone(), SymbolKind::Variable),
                    );
                    k = k + 1;
                }
            },
            None => {},
        }
        i = i + 1;
    }
    registry
}

/// The names of the modules declared in a batch, in file order.
fn package_module_names(infos: &Vec<(Option<String>, bool, Vec<String>)>) -> (r: Vec<String>)
    ensures
        forall|i: int|
            0 <= i < infos@.len() && #[trigger] declared_module(infos@[i]) is Some ==> exists|j: int|
                0 <= j < r@.len() && r@[j]@ == declared_module(infos@[i])->0,
{
    let mut names: Vec<String> = Vec::new();
    let mut i: usize = 0;
    while i < infos.len()
        invariant
            i <= infos@.len(),
            forall|k: int|
                0 <= k < i && #[trigger] declared_module(infos@[k]) is Some ==> exists|j: int|
                    0 <= j < names@.len() && names@[j]@ == declared_module(infos@[k])->0,
        decreases infos@.len() - i,
    {
        let ghost old_names = names@;
        match &infos[i].0 {
            Some(n) => {
                names.push(n.clone());
                assert(names@[names@.len() - 1]@ == n@);
            },
            None => {},
        }
        proof {
            assert forall|k: int|
                0 <= k < i + 1 && #[trigger] declared_module(infos@[k]) is Some implies exists|j: int|
                    0 <= j < names@.len() && names@[j]@ == declared_module(infos@[k])->0 by {
                if k < i {
                    let j = choose|j: int|
                        0 <= j < old_names.len() && old_names[j]@ == declared_module(infos@[k])->0;
                    assert(names@[j] == old_names[j]);
                } else {
                    assert(names@[names@.len() - 1]@ == declared_module(infos@[k])->0);
                }
            }
        }
        i = i + 1;
    }
    names
}

/// Some key of the map is a string whose characters are `n`.
pub open spec fn keyed_by(m: Map<String, FileAnalysisResult>, n: Seq<char>) -> bool {
    exists|k: String| m.contains_key(k) && k@ == n
}

impl MultiFileAnalyzer {
    /// The files of the batch, in order.
    pub closed spec fn files(&self) -> Seq<SourceFile> {
        self.sources@
    }

    /// The limits the files are lexed and parsed under.
    pub closed spec fn limits(&self) -> CompilerLimits {
        self.limits
    }

    /// Creates a new multi-file analyzer with default compiler limits.
    pub fn new(sources: Vec<SourceFile>) -> (r: Self)
        ensures
            r.files() == sources@,
            r.limits().max_tokens == 1_000_000,
            r.limits().max_nesting_depth == 256,
    {
        MultiFileAnalyzer { sources, limits: CompilerLimits::default() }
    }

    /// Lexes and parses a source text; the message of the first error on
    /// failure.
    fn parse_source(&self, source: &str) -> (r: Result<Ast, String>)
        ensures
            r matches Ok(ast) ==> ast.root matches Some(root) && root < ast.nodes@.len() && ast.nodes@[root as int].node_type
                == NodeType::Program,
            source@.len() >= usize::MAX / 2 ==> (r matches Err(m) && m@ == "Source text too long"@),
            source@.len() < usize::MAX / 2 && (self.limits().max_tokens > 0 || source@.len() == 0) && all_blank(source@)
                ==> (r matches Ok(ast) && ast.nodes@[ast.root->0 as int].first_child is None),
    {
        match lex(source, &self.limits) {
            Ok(tokens) => match parse(tokens, &self.limits) {
                Ok(ast) => Ok(ast),
                Err(e) => Err(e.to_string()),
            },
            Err(e) => Err(e.to_string()),
        }
    }

    /// Runs the two-pass analysis and returns the result of each file, in
    /// the order of the files.
    pub fn analyze_files(&self) -> (r: Vec<(String, FileAnalysisResult)>)
        ensures
            r@.len() == self.files().len(),
            forall|i: int| 0 <= i < r@.len() ==> (#[trigger] r@[i]).0@ == self.files()[i].name@,
    {
        let mut parsed: Vec<Result<Ast, String>> = Vec::new();
        let mut infos: Vec<(Option<String>, bool, Vec<String>)> = Vec::new();
        let mut i: usize = 0;
        while i < self.sources.len()
            invariant
                i <= self.sources@.len(),
                parsed@.len() == i,
                infos@.len() == i,
            decreases self.sources@.len() - i,
        {
            let result = self.parse_source(self.sources[i].source.as_str());
            match &result {
                Ok(ast) => {
                    let (name, exports, sub) = extract_module_info(ast);
                    infos.push((name, sub, exports));
                },
                Err(_) => {
                    infos.push((None, false, Vec::new()));
                },
            }
            parsed.push(result);
            i = i + 1;
        }
        let registry = build_registry(&infos);
        let package = package_module_names(&infos);
        let mut results: Vec<(String, FileAnalysisResult)> = Vec::new();
        let mut parsed = parsed;
        let mut i: usize = 0;
        while i < self.sources.len()
            invariant
                i <= self.sources@.len(),
                parsed@.len() == self.sources@.len(),
                infos@.len() == self.sources@.len(),
                results@.len() == i,
                forall|k: int| 0 <= k < i ==> (#[trigger] results@[k]).0@ == self.sources@[k].name@,
            decreases self.sources@.len() - i,
        {
            let module_name = match &infos[i].0 {
                Some(n) => Some(n.clone()),
                None => None,
            };
            let mut slot: Result<Ast, String> = Err(String::new());
            std::mem::swap(&mut slot, &mut parsed[i]);
            let errors = match slot {
                Err(message) => {
                    let mut es: Vec<SemanticError> = Vec::new();
                    es.push(SemanticError::new(concat2("Parse error: ", message.as_str()), 0, 0));
                    es
                },
                Ok(ast) => {
                    let analyzer = SemanticAnalyzer::new(ast).with_module_registry(registry.clone())
                        .with_package_modules(copy_names(&package));
                    match analyzer.analyze() {
                        Ok(_) => Vec::new(),
                        Err(es) => es,
                    }
                },
            };
            results.push((self.sources[i].name.clone(), FileAnalysisResult { errors, module_name }));
            i = i + 1;
        }
        results
    }

    /// Runs the two-pass analysis and returns the result of each file,
    /// keyed by file name.
    pub fn analyze(&self) -> (r: HashMap<String, FileAnalysisResult>)
        ensures
            obeys_key_model::<String>() && builds_valid_hashers::<RandomState>() ==> forall|n: Seq<char>|
                #![trigger keyed_by(r@, n)]
                keyed_by(r@, n) <==> exists|i: int| 0 <= i < self.files().len() && self.files()[i].name@ == n,
    {
        let results = self.analyze_files();
        let ghost all = results@;
        let mut map: HashMap<String, FileAnalysisResult> = HashMap::new();
        let mut results = results;
        let ghost mut j: int = 0;
        while results.len() > 0
            invariant
                0 <= j <= all.len(),
                results@ == all.skip(j),
                all.len() == self.files().len(),
                forall|i: int| 0 <= i < all.len() ==> (#[trigger] all[i]).0@ == self.files()[i].name@,
                obeys_key_model::<String>() && builds_valid_hashers::<RandomState>() ==> forall|n: Seq<char>|
                    #![trigger keyed_by(map@, n)]
                    keyed_by(map@, n) <==> exists|i: int| 0 <= i < j && all[i].0@ == n,
            decreases results@.len(),
        {
            let ghost before = map@;
            let (name, result) = results.remove(0);
            assert(all[j] == (name, result));
            let ghost key = name;
            map.insert(name, result);
            proof {
                if obeys_key_model::<String>() && builds_valid_hashers::<RandomState>() {
                    assert forall|n: Seq<char>| #![trigger keyed_by(map@, n)]
                        keyed_by(map@, n) <==> exists|i: int| 0 <= i < j + 1 && all[i].0@ == n by {
                        if keyed_by(map@, n) {
                            let k = choose|k: String| map@.contains_key(k) && k@ == n;
                            if k != key {
                                assert(keyed_by(before, n));
                            } else {
                                assert(all[j].0@ == n);
                            }
                        }
                        if exists|i: int| 0 <= i < j + 1 && all[i].0@ == n {
                            let i = choose|i: int| 0 <= i < j + 1 && all[i].0@ == n;
                            if i < j {
                                assert(keyed_by(before, n));
                                let k = choose|k: String| before.contains_key(k) && k@ == n;
                                assert(map@.contains_key(k));
                            } else {
                                assert(map@.contains_key(key));
                            }
                        }
                    }
                }
                assert(results@ =~= all.skip(j + 1));
                j = j + 1;
            }
        }
        proof {
            assert(all.skip(j).len() == 0);
            assert(j == all.len());
            if obeys_key_model::<String>() && builds_valid_hashers::<RandomState>() {
                assert forall|n: Seq<char>| #![trigger keyed_by(map@, n)]
                    keyed_by(map@, n) <==> exists|i: int| 0 <= i < self.files().len() && self.files()[i].name@ == n by {
                    if exists|i: int| 0 <= i < self.files().len() && self.files()[i].name@ == n {
                        let i = choose|i: int| 0 <= i < self.files().len() && self.files()[i].name@ == n;
                        assert(all[i].0@ == n);
                    }
                    if keyed_by(map@, n) {
                        let i = choose|i: int| 0 <= i < j && all[i].0@ == n;
                        assert(self.files()[i].name@ == n);
                    }
                }
            }
        }
        map
    }
}

fn copy_names(v: &Vec<String>) -> (r: Vec<String>)
    ensures
        strings_view(r@) == strings_view(v@),
{
    let mut out: Vec<String> = Vec::new();
    let mut i: usize = 0;
    while i < v.len()
        invariant
            i <= v@.len(),
            out@.len() == i,
            forall|k: int| 0 <= k < i ==> (#[trigger] out@[k])@ == v@[k]@,
        decreases v@.len() - i,
    {
        out.push(v[i].clone());
        i = i + 1;
    }
    assert(strings_view(out@) =~= strings_view(v@));
    out
}

} // verus!
