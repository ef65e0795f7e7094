//! Module declarations, export statements and import statements.

use vstd::prelude::*;
use crate::ast::{Ast, AstNode, NodeType};
use crate::lexer::TokenKind;
use crate::text::{concat3};
use crate::string_storage::str_equal;
use super::symbols::{ScopeKind, SymbolKind, Symbol, copy_opt_text, opt_text};
use super::module_registry::{ModuleRegistry, RegistryView, ExportView, exports_view};
use super::symbols::{ScopeStackView, SymbolView, SemanticError};
use super::names::token_text;
use super::analyzer::SemanticAnalyzer;

verus! {

broadcast use crate::prefix::group_prefix;

/// A module path and whether it names a submodule: a leading '.' marks a
/// submodule and is not part of its name.
pub open spec fn module_name_of(path: Seq<char>) -> (Seq<char>, bool) {
    if path.len() > 0 && path[0] == '.' {
        (path.subrange(1, path.len() as int), true)
    } else {
        (path, false)
    }
}

/// Splits a module path into the module name and whether it is a submodule.
pub fn split_module_path(path: &str) -> (r: (String, bool))
    ensures
        (r.0@, r.1) == module_name_of(path@),
{
    let n = path.unicode_len();
    if n > 0 && path.get_char(0) == '.' {
        (String::from_str(path.substring_char(1, n)), true)
    } else {
        (String::from_str(path), false)
    }
}

/// The module path of a module declaration: the token text of its first
/// child.
pub open spec fn declared_path(nodes: Seq<AstNode>, idx: usize) -> Option<Seq<char>> {
    if idx < nodes.len() {
        match nodes[idx as int].first_child {
            Some(p) => if p < nodes.len() && nodes[p as int].token is Some {
                Some(nodes[p as int].token->0.text@)
            } else {
                None
            },
            None => None,
        }
    } else {
        None
    }
}

/// No two strings of the list are equal.
pub open spec fn strings_distinct(v: Seq<String>) -> bool {
    forall|i: int, j: int| 0 <= i < j < v.len() ==> v[i]@ != v[j]@
}

fn names_contain(v: &Vec<String>, name: &str) -> (r: bool)
    ensures
        r == exists|i: int| 0 <= i < v@.len() && v@[i]@ == name@,
{
    let mut k: usize = 0;
    while k < v.len()
        invariant
            k <= v@.len(),
            forall|i: int| 0 <= i < k ==> v@[i]@ != name@,
        decreases v@.len() - k,
    {
        if str_equal(v[k].as_str(), name) {
            return true;
        }
        k = k + 1;
    }
    false
}

impl SemanticAnalyzer {
    /// Visits a module declaration: registers the module symbol, records the
    /// module (and whether it is a submodule) and enters the module scope.
    /// Only one module declaration is allowed per file.
    pub fn visit_module_decl(&mut self, node_idx: usize)
        requires
            old(self).wf(),
        ensures
            final(self).grows(&*old(self)),
            old(self).current_module is Some ==> final(self).scopes == old(self).scopes,
            old(self).current_module is Some ==> final(self).errors@.len() == old(self).errors@.len() + (if declared_path(
                old(self).ast.nodes@,
                node_idx,
            ) is Some {
                1int
            } else {
                0int
            }),
            old(self).current_module is Some && declared_path(old(self).ast.nodes@, node_idx) is Some
                ==> final(self).errors@.last().message@ == "Only one module declaration allowed per file"@,
            old(self).current_module is None && declared_path(old(self).ast.nodes@, node_idx) is Some ==> opt_text(
                final(self).current_module,
            ) == Some(module_name_of(declared_path(old(self).ast.nodes@, node_idx)->0).0) && final(self).is_submodule
                == module_name_of(declared_path(old(self).ast.nodes@, node_idx)->0).1,
    {
        let path_idx = self.ast.first_child_of(node_idx);
        if self.current_module.is_some() {
            match path_idx {
                Some(p) => {
                    if self.ast.token_at(p).is_some() {
                        let msg = String::from_str("Only one module declaration allowed per file");
                        self.report(msg, p);
                    }
                },
                None => {},
            }
            return;
        }
        let p = match path_idx {
            Some(p) => p,
            None => {
                return;
            },
        };
        let path = match self.text_of(p) {
            Some(t) => t,
            None => {
                return;
            },
        };
        let (module_name, is_sub) = split_module_path(path.as_str());
        let label = if is_sub {
            String::from_str("submodule")
        } else {
            String::from_str("module")
        };
        let symbol = Symbol::new(module_name.clone(), Some(label), SymbolKind::Module);
        self.scopes.insert(symbol);
        self.current_module = Some(module_name);
        self.is_submodule = is_sub;
        self.scopes.enter_scope(ScopeKind::Module);
    }

    /// Visits `export { a, b }`: each name must be defined and exported once;
    /// valid names are collected in order.
    pub fn visit_export_stmt(&mut self, node_idx: usize)
        requires
            old(self).wf(),
        ensures
            final(self).grows(&*old(self)),
            final(self).scopes == old(self).scopes,
            strings_distinct(old(self).exported_symbol_names@) ==> strings_distinct(final(self).exported_symbol_names@),
            *final(self) == (SemanticAnalyzer {
                errors: final(self).errors,
                exported_symbol_names: final(self).exported_symbol_names,
                ..*old(self)
            }),
            names_view(final(self).exported_symbol_names@) == exports_after(
                old(self).scopes@,
                names_view(old(self).exported_symbol_names@),
                old(self).ast.nodes@,
                listed_items(&old(self).ast, node_idx),
            ),
            messages_added(
                old(self).errors@,
                final(self).errors@,
                export_errors(
                    old(self).scopes@,
                    names_view(old(self).exported_symbol_names@),
                    old(self).ast.nodes@,
                    listed_items(&old(self).ast, node_idx),
                ),
            ),
    {
        let names: Vec<usize> = match self.ast.first_child_of(node_idx) {
            Some(l) => self.ast.children(l),
            None => Vec::new(),
        };
        let ghost ex0 = names_view(self.exported_symbol_names@);
        let ghost nodes = self.ast.nodes@;
        let ghost sv = self.scopes@;
        assert(self.errors@.subrange(0, self.errors@.len() as int) =~= self.errors@);
        assert(names@.subrange(0, 0) =~= Seq::<usize>::empty());
        let mut k: usize = 0;
        while k < names.len()
            invariant
                self.grows(&*old(self)),
                self.scopes == old(self).scopes,
                *self == (SemanticAnalyzer {
                    errors: self.errors,
                    exported_symbol_names: self.exported_symbol_names,
                    ..*old(self)
                }),
                k <= names@.len(),
                names@ == listed_items(&old(self).ast, node_idx),
                nodes == old(self).ast.nodes@,
                sv == old(self).scopes@,
                ex0 == names_view(old(self).exported_symbol_names@),
                strings_distinct(old(self).exported_symbol_names@) ==> strings_distinct(self.exported_symbol_names@),
                names_view(self.exported_symbol_names@) == exports_after(sv, ex0, nodes, names@.subrange(0, k as int)),
                messages_added(old(self).errors@, self.errors@, export_errors(sv, ex0, nodes, names@.subrange(0, k as int))),
            decreases names@.len() - k,
        {
            assert(names@.subrange(0, k as int + 1).drop_last() =~= names@.subrange(0, k as int));
            assert(names@.subrange(0, k as int + 1).last() == names@[k as int]);
            let ghost before = self.errors@;
            let ghost ex_before = self.exported_symbol_names@;
            let ident = names[k];
            proof {
                reveal_strlit("Exported symbol '");
                reveal_strlit("' is not defined");
                reveal_strlit("Symbol '");
                reveal_strlit("' is exported more than once");
                assert forall|i: int| 0 <= i < ex_before.len() implies names_view(ex_before)[i] == ex_before[i]@ by {}
            }
            match self.text_of(ident) {
                Some(name) => {
                    if self.scopes.lookup(name.as_str()).is_none() {
                        let msg = concat3("Exported symbol '", name.as_str(), "' is not defined");
                        self.report(msg, ident);
                    } else if names_contain(&self.exported_symbol_names, name.as_str()) {
                        proof {
                            let i = choose|i: int| 0 <= i < ex_before.len() && ex_before[i]@ == name@;
                            assert(names_view(ex_before)[i] == name@);
                            assert(names_view(ex_before).contains(name@));
                        }
                        let msg = concat3("Symbol '", name.as_str(), "' is exported more than once");
                        self.report(msg, ident);
                    } else {
                        proof {
                            if names_view(ex_before).contains(name@) {
                                let j = choose|j: int| 0 <= j < names_view(ex_before).len() && names_view(ex_before)[j] == name@;
                                assert(ex_before[j]@ == name@);
                            }
                        }
                        self.exported_symbol_names.push(name);
                        assert(names_view(self.exported_symbol_names@) =~= names_view(ex_before).push(
                            self.exported_symbol_names@.last()@,
                        ));
                    }
                },
                None => {},
            }
            proof {
                lemma_messages_step(old(self).errors@, before, self.errors@, export_errors(sv, ex0, nodes, names@.subrange(0, k as int)));
            }
            k = k + 1;
        }
        assert(names@.subrange(0, names@.len() as int) =~= names@);
    }

    /// The names exported by the analyzed file, in order
    pub fn collect_exported_names(&self) -> (r: Vec<String>)
        ensures
            r@.len() == self.exported_symbol_names@.len(),
            forall|i: int| 0 <= i < r@.len() ==> r@[i]@ == self.exported_symbol_names@[i]@,
    {
        let mut out: Vec<String> = Vec::new();
        let mut k: usize = 0;
        while k < self.exported_symbol_names.len()
            invariant
                k <= self.exported_symbol_names@.len(),
                out@.len() == k,
                forall|i: int| 0 <= i < k ==> out@[i]@ == self.exported_symbol_names@[i]@,
            decreases self.exported_symbol_names@.len() - k,
        {
            out.push(self.exported_symbol_names[k].clone());
            k = k + 1;
        }
        out
    }

    /// Whether the named module may be imported from this file: submodules
    /// only from within their package; anything in single-file mode.
    pub fn is_submodule_accessible(&self, module_name: &str, registry: &ModuleRegistry) -> (r: bool)
        ensures
            !registry@.submodules.contains(module_name@) ==> r,
            self.package_modules is None ==> r,
            registry@.submodules.contains(module_name@) ==> (self.package_modules matches Some(pkg)
                ==> r == exists|i: int| 0 <= i < pkg@.len() && pkg@[i]@ == module_name@),
            r == import_allowed(self, registry@, module_name@),
    {
        if !registry.is_submodule(module_name) {
            return true;
        }
        match &self.package_modules {
            None => true,
            Some(pkg) => names_contain(pkg, module_name),
        }
    }

    /// Visits `import { ... }`; without a module registry (single-file mode)
    /// imports are not checked.
    pub fn visit_import_stmt(&mut self, node_idx: usize)
        requires
            old(self).wf(),
        ensures
            final(self).grows(&*old(self)),
            final(self).module_registry == old(self).module_registry,
            old(self).module_registry is None ==> *final(self) == *old(self),
            old(self).module_registry matches Some(reg) ==> exists|states: Seq<SemanticAnalyzer>|
                #[trigger] import_chain(states, reg@, listed_items(&old(self).ast, node_idx)) && states[0] == (
                SemanticAnalyzer { module_registry: None, ..*old(self) }) && states.last() == (SemanticAnalyzer {
                module_registry: None,
                ..*final(self)
            }),
    {
        let mut registry: Option<ModuleRegistry> = None;
        std::mem::swap(&mut registry, &mut self.module_registry);
        let ghost start = *self;
        match &registry {
            Some(reg) => {
                let items: Vec<usize> = match self.ast.first_child_of(node_idx) {
                    Some(list) => self.ast.children(list),
                    None => Vec::new(),
                };
                let ghost mut states: Seq<SemanticAnalyzer> = seq![*self];
                let mut k: usize = 0;
                while k < items.len()
                    invariant
                        self.grows(&*old(self)),
                        self.module_registry is None,
                        k <= items@.len(),
                        items@ == listed_items(&old(self).ast, node_idx),
                        states.len() == k + 1,
                        states[0] == start,
                        states.last() == *self,
                        forall|i: int|
                            0 <= i < k ==> #[trigger] import_item_done(&states[i], &states[i + 1], reg@, items@[i]),
                    decreases items@.len() - k,
                {
                    self.resolve_import_item(items[k], reg);
                    proof {
                        states = states.push(*self);
                    }
                    k = k + 1;
                }
                assert(import_chain(states, reg@, listed_items(&old(self).ast, node_idx)));
            },
            None => {},
        }
        self.module_registry = registry;
    }

    fn report_not_found(&mut self, module_name: &str, idx: usize)
        requires
            old(self).wf(),
        ensures
            final(self).grows(&*old(self)),
            final(self).scopes == old(self).scopes,
            only_error_added(&*old(self), &*final(self), "Module '"@ + module_name@ + "' not found"@),
    {
        let msg = concat3("Module '", module_name, "' not found");
        self.report(msg, idx);
    }

    fn report_inaccessible(&mut self, module_name: &str, idx: usize)
        requires
            old(self).wf(),
        ensures
            final(self).grows(&*old(self)),
            final(self).scopes == old(self).scopes,
            only_error_added(
                &*old(self),
                &*final(self),
                "Cannot import submodule '"@ + module_name@ + "' from outside its package"@,
            ),
    {
        let msg = concat3("Cannot import submodule '", module_name, "' from outside its package");
        self.report(msg, idx);
    }

    /// Resolves one import item: a whole module, an aliased module, all
    /// exports of a module (`*`) or a selection of them.
    pub fn resolve_import_item(&mut self, item_idx: usize, registry: &ModuleRegistry)
        requires
            old(self).wf(),
        ensures
            final(self).grows(&*old(self)),
            import_item_done(&*old(self), &*final(self), registry@, item_idx),
    {
        let first = match self.ast.first_child_of(item_idx) {
            Some(f) => f,
            None => {
                return;
            },
        };
        match self.ast.node_type_at(first) {
            Some(NodeType::Identifier) => {
                let is_star = match self.ast.token_at(first) {
                    Some(t) => t.kind == TokenKind::Star,
                    None => false,
                };
                if is_star {
                    self.resolve_star_import(first, registry);
                } else {
                    self.resolve_full_import(first, registry);
                }
            },
            Some(NodeType::ImportAlias) => self.resolve_aliased_import(first, registry),
            Some(NodeType::ImportSelective) => self.resolve_selective_import(first, registry),
            _ => {},
        }
    }

    /// `import { math }`: the module must exist and be accessible; its name
    /// is added to the current scope
    pub fn resolve_full_import(&mut self, ident_idx: usize, registry: &ModuleRegistry)
        requires
            old(self).wf(),
        ensures
            final(self).grows(&*old(self)),
            module_import_done(
                &*old(self),
                &*final(self),
                registry@,
                token_text(old(self).ast.nodes@, ident_idx),
                token_text(old(self).ast.nodes@, ident_idx),
                true,
            ),
    {
        let module_name = match self.text_of(ident_idx) {
            Some(n) => n,
            None => {
                return;
            },
        };
        match registry.resolve_qualified_path(module_name.as_str()) {
            Some(canonical) => {
                if !self.is_submodule_accessible(canonical, registry) {
                    self.report_inaccessible(canonical, ident_idx);
                    return;
                }
                let symbol = Symbol::new(
                    String::from_str(canonical),
                    Some(String::from_str("module")),
                    SymbolKind::Module,
                );
                self.scopes.insert(symbol);
            },
            None => self.report_not_found(module_name.as_str(), ident_idx),
        }
    }

    /// `import { m: math }`: like a whole-module import, under the alias
    pub fn resolve_aliased_import(&mut self, alias_idx: usize, registry: &ModuleRegistry)
        requires
            old(self).wf(),
        ensures
            final(self).grows(&*old(self)),
            module_import_done(
                &*old(self),
                &*final(self),
                registry@,
                token_text(old(self).ast.nodes@, alias_idx),
                sibling_text(old(self).ast.nodes@, alias_idx),
                false,
            ),
    {
        let alias = match self.text_of(alias_idx) {
            Some(n) => n,
            None => {
                return;
            },
        };
        let module_idx = match self.ast.next_sibling_of(alias_idx) {
            Some(m) => m,
            None => {
                return;
            },
        };
        let module_name = match self.text_of(module_idx) {
            Some(n) => n,
            None => {
                return;
            },
        };
        match registry.resolve_qualified_path(module_name.as_str()) {
            Some(canonical) => {
                if !self.is_submodule_accessible(canonical, registry) {
                    self.report_inaccessible(canonical, module_idx);
                    return;
                }
                let symbol = Symbol::new(alias, Some(String::from_str("module")), SymbolKind::Module);
                self.scopes.insert(symbol);
            },
            None => self.report_not_found(module_name.as_str(), module_idx),
        }
    }

    /// `import { *: math }`: every export of the module is added to scope
    pub fn resolve_star_import(&mut self, star_idx: usize, registry: &ModuleRegistry)
        requires
            old(self).wf(),
        ensures
            final(self).grows(&*old(self)),
            star_import_done(&*old(self), &*final(self), registry@, star_idx),
    {
        let module_idx = match self.ast.next_sibling_of(star_idx) {
            Some(m) => m,
            None => {
                return;
            },
        };
        let module_name = match self.text_of(module_idx) {
            Some(n) => n,
            None => {
                return;
            },
        };
        let canonical = match registry.resolve_qualified_path(module_name.as_str()) {
            Some(c) => c,
            None => {
                self.report_not_found(module_name.as_str(), module_idx);
                return;
            },
        };
        let accessible = self.is_submodule_accessible(canonical, registry);
        match registry.get_module_exports(canonical) {
            Some(exports) => {
                if !accessible {
                    self.report_inaccessible(canonical, module_idx);
                    return;
                }
                let ghost es = exports_view(exports@);
                let mut k: usize = 0;
                while k < exports.len()
                    invariant
                        self.grows(&*old(self)),
                        *self == (SemanticAnalyzer { scopes: self.scopes, ..*old(self) }),
                        k <= exports@.len(),
                        es == exports_view(exports@),
                        self.scopes@ == import_all(old(self).scopes@, es.subrange(0, k as int)),
                    decreases exports@.len() - k,
                {
                    let e = &exports[k];
                    let symbol = Symbol::new(e.name.clone(), copy_opt_text(&e.type_label), e.kind);
                    self.scopes.insert(symbol);
                    k = k + 1;
                    assert(es.subrange(0, k as int).drop_last() =~= es.subrange(0, k as int - 1));
                }
                assert(es.subrange(0, es.len() as int) =~= es);
            },
            None => {
                self.report_not_found(module_name.as_str(), module_idx);
            },
        }
    }

    /// `import { {sin, cos}: math }`: each selected export is added to scope;
    /// selections the module does not export are errors
    pub fn resolve_selective_import(&mut self, selective_idx: usize, registry: &ModuleRegistry)
        requires
            old(self).wf(),
        ensures
            final(self).grows(&*old(self)),
            selective_import_done(&*old(self), &*final(self), registry@, selective_idx),
    {
        let module_idx = match self.ast.next_sibling_of(selective_idx) {
            Some(m) => m,
            None => {
                return;
            },
        };
        let module_name = match self.text_of(module_idx) {
            Some(n) => n,
            None => {
                return;
            },
        };
        let canonical = match registry.resolve_qualified_path(module_name.as_str()) {
            Some(c) => c,
            None => {
                self.report_not_found(module_name.as_str(), module_idx);
                return;
            },
        };
        if !self.is_submodule_accessible(canonical, registry) {
            self.report_inaccessible(canonical, module_idx);
            return;
        }
        let selectors = self.ast.children(selective_idx);
        let ghost c = canonical@;
        let ghost rv = registry@;
        let ghost nodes = self.ast.nodes@;
        let mut missing: Vec<(String, usize)> = Vec::new();
        let mut k: usize = 0;
        while k < selectors.len()
            invariant
                self.grows(&*old(self)),
                *self == (SemanticAnalyzer { scopes: self.scopes, ..*old(self) }),
                k <= selectors@.len(),
                rv == registry@,
                c == canonical@,
                nodes == old(self).ast.nodes@,
                self.scopes@ == select_all(old(self).scopes@, rv, c, nodes, selectors@.subrange(0, k as int)),
                missing@.len() == missing_selections(rv, c, nodes, selectors@.subrange(0, k as int)).len(),
                forall|j: int|
                    0 <= j < missing@.len() ==> (#[trigger] missing@[j]).0@ == missing_selections(
                        rv,
                        c,
                        nodes,
                        selectors@.subrange(0, k as int),
                    )[j],
            decreases selectors@.len() - k,
        {
            assert(selectors@.subrange(0, k as int + 1).drop_last() =~= selectors@.subrange(0, k as int));
            assert(selectors@.subrange(0, k as int + 1).last() == selectors@[k as int]);
            let sel = selectors[k];
            match self.text_of(sel) {
                Some(name) => {
                    match registry.get_symbol(canonical, name.as_str()) {
                        Some(e) => {
                            let symbol = Symbol::new(e.name.clone(), copy_opt_text(&e.type_label), e.kind);
                            self.scopes.insert(symbol);
                        },
                        None => {
                            missing.push((name, sel));
                        },
                    }
                },
                None => {},
            }
            k = k + 1;
        }
        assert(selectors@.subrange(0, selectors@.len() as int) =~= selectors@);
        let ghost miss = missing_selections(rv, c, nodes, selectors@);
        let ghost e0 = self.errors@;
        let ghost mid = *self;
        let mut j: usize = 0;
        while j < missing.len()
            invariant
                self.grows(&*old(self)),
                *self == (SemanticAnalyzer { errors: self.errors, ..mid }),
                j <= missing@.len(),
                missing@.len() == miss.len(),
                forall|q: int| 0 <= q < missing@.len() ==> (#[trigger] missing@[q]).0@ == miss[q],
                self.errors@.len() == e0.len() + j,
                self.errors@.subrange(0, e0.len() as int) == e0,
                forall|q: int|
                    0 <= q < j ==> (#[trigger] self.errors@[e0.len() + q]).message@ == "Symbol '"@ + miss[q]
                        + "' not found in module '"@ + module_name@ + "'"@,
            decreases missing@.len() - j,
        {
            proof {
                reveal_strlit("'");
            }
            let ghost before = self.errors@;
            let mut msg = concat3("Symbol '", missing[j].0.as_str(), "' not found in module '");
            msg.append(module_name.as_str());
            msg.append("'");
            self.report(msg, missing[j].1);
            proof {
                assert forall|q: int| 0 <= q < j + 1 implies (#[trigger] self.errors@[e0.len() + q]).message@
                    == "Symbol '"@ + miss[q] + "' not found in module '"@ + module_name@ + "'"@ by {
                    if q < j {
                        assert(self.errors@[e0.len() + q] == self.errors@.subrange(0, before.len() as int)[e0.len() + q]);
                    }
                }
                assert(self.errors@.subrange(0, e0.len() as int) =~= before.subrange(0, e0.len() as int));
            }
            j = j + 1;
        }
    }
}

/// The token text of the next sibling of node `idx`, if there is one.
pub open spec fn sibling_text(nodes: Seq<AstNode>, idx: usize) -> Option<Seq<char>> {
    if idx < nodes.len() {
        match nodes[idx as int].next_sibling {
            Some(n) => token_text(nodes, n),
            None => None,
        }
    } else {
        None
    }
}

/// Whether analyzer `a` may import module `name` of registry `reg`: it is
/// not a submodule, the analyzer has no package, or the module is one of
/// its package's modules.
pub open spec fn import_allowed(a: &SemanticAnalyzer, reg: RegistryView, name: Seq<char>) -> bool {
    !reg.submodules.contains(name) || match a.package_modules {
        None => true,
        Some(pkg) => exists|i: int| 0 <= i < pkg@.len() && pkg@[i]@ == name,
    }
}

/// Exactly one error, with message `m`, was added, and nothing else changed.
pub open spec fn only_error_added(a: &SemanticAnalyzer, b: &SemanticAnalyzer, m: Seq<char>) -> bool {
    &&& *b == (SemanticAnalyzer { errors: b.errors, ..*a })
    &&& b.errors@.len() == a.errors@.len() + 1
    &&& b.errors@.last().message@ == m
}

/// Only the scopes changed, and they became `v`.
pub open spec fn scopes_became(a: &SemanticAnalyzer, b: &SemanticAnalyzer, v: ScopeStackView) -> bool {
    *b == (SemanticAnalyzer { scopes: b.scopes, ..*a }) && b.scopes@ == v
}

/// The scopes after importing symbol `s`: it is declared in the current
/// scope unless that scope already has a symbol of its name.
pub open spec fn with_import(v: ScopeStackView, s: SymbolView) -> ScopeStackView {
    if v.scopes[v.top()].symbols.contains_key(s.name) {
        v
    } else {
        v.declared(s)
    }
}

/// The module symbol an import declares under `name`.
pub open spec fn module_symbol(name: Seq<char>) -> SymbolView {
    SymbolView { name, type_label: Some("module"@), kind: SymbolKind::Module, type_id: None }
}

/// The symbol an import declares for an exported symbol.
pub open spec fn export_symbol(e: ExportView) -> SymbolView {
    SymbolView { name: e.name, type_label: e.type_label, kind: e.kind, type_id: None }
}

/// The scopes after importing each of the exports `es`, in order.
pub open spec fn import_all(v: ScopeStackView, es: Seq<ExportView>) -> ScopeStackView
    decreases es.len(),
{
    if es.len() == 0 {
        v
    } else {
        with_import(import_all(v, es.drop_last()), export_symbol(es.last()))
    }
}

/// Importing a module given by path `path` under the name `name` (the
/// module's canonical name instead when `canonical_name`): a path that does
/// not resolve is "Module 'p' not found"; a submodule from outside its
/// package is refused; else the module symbol is declared. Without a name
/// or path nothing happens.
pub open spec fn module_import_done(
    a: &SemanticAnalyzer,
    b: &SemanticAnalyzer,
    reg: RegistryView,
    name: Option<Seq<char>>,
    path: Option<Seq<char>>,
    canonical_name: bool,
) -> bool {
    match (name, path) {
        (Some(n), Some(p)) => match reg.resolve(p) {
            None => only_error_added(a, b, "Module '"@ + p + "' not found"@),
            Some(c) => if import_allowed(a, reg, c) {
                scopes_became(a, b, with_import(a.scopes@, module_symbol(if canonical_name { c } else { n })))
            } else {
                only_error_added(a, b, "Cannot import submodule '"@ + c + "' from outside its package"@)
            },
        },
        _ => *b == *a,
    }
}

/// `import { *: m }` at node `star`: every export of `m` is imported, in
/// order, with the same errors as a module import.
pub open spec fn star_import_done(a: &SemanticAnalyzer, b: &SemanticAnalyzer, reg: RegistryView, star: usize) -> bool {
    match sibling_text(a.ast.nodes@, star) {
        Some(p) => match reg.resolve(p) {
            None => only_error_added(a, b, "Module '"@ + p + "' not found"@),
            Some(c) => if !reg.modules.contains_key(c) {
                only_error_added(a, b, "Module '"@ + p + "' not found"@)
            } else if import_allowed(a, reg, c) {
                scopes_became(a, b, import_all(a.scopes@, reg.modules[c]))
            } else {
                only_error_added(a, b, "Cannot import submodule '"@ + c + "' from outside its package"@)
            },
        },
        None => *b == *a,
    }
}

/// The scopes after importing each selected name that module `c` exports.
pub open spec fn select_all(v: ScopeStackView, reg: RegistryView, c: Seq<char>, nodes: Seq<AstNode>, sels: Seq<usize>) -> ScopeStackView
    decreases sels.len(),
{
    if sels.len() == 0 {
        v
    } else {
        let prev = select_all(v, reg, c, nodes, sels.drop_last());
        match token_text(nodes, sels.last()) {
            Some(n) => match reg.symbol(c, n) {
                Some(e) => with_import(prev, export_symbol(e)),
                None => prev,
            },
            None => prev,
        }
    }
}

/// The selected names that module `c` does not export, in order.
pub open spec fn missing_selections(reg: RegistryView, c: Seq<char>, nodes: Seq<AstNode>, sels: Seq<usize>) -> Seq<Seq<char>>
    decreases sels.len(),
{
    if sels.len() == 0 {
        Seq::empty()
    } else {
        let prev = missing_selections(reg, c, nodes, sels.drop_last());
        match token_text(nodes, sels.last()) {
            Some(n) => if reg.symbol(c, n) is None {
                prev.push(n)
            } else {
                prev
            },
            None => prev,
        }
    }
}

/// `import { {x, y}: m }` at node `sel`: the selected exports of `m` are
/// imported, in order, then each selection `m` does not export is reported
/// as "Symbol 'x' not found in module 'm'"; the module itself is checked
/// as in a module import.
pub open spec fn selective_import_done(a: &SemanticAnalyzer, b: &SemanticAnalyzer, reg: RegistryView, sel: usize) -> bool {
    let nodes = a.ast.nodes@;
    match sibling_text(nodes, sel) {
        Some(p) => match reg.resolve(p) {
            None => only_error_added(a, b, "Module '"@ + p + "' not found"@),
            Some(c) => if import_allowed(a, reg, c) {
                let sels = a.ast.child_list(sel);
                let miss = missing_selections(reg, c, nodes, sels);
                &&& *b == (SemanticAnalyzer { scopes: b.scopes, errors: b.errors, ..*a })
                &&& b.scopes@ == select_all(a.scopes@, reg, c, nodes, sels)
                &&& b.errors@.len() == a.errors@.len() + miss.len()
                &&& b.errors@.subrange(0, a.errors@.len() as int) == a.errors@
                &&& forall|q: int|
                    0 <= q < miss.len() ==> (#[trigger] b.errors@[a.errors@.len() + q]).message@ == "Symbol '"@ + miss[q]
                        + "' not found in module '"@ + p + "'"@
            } else {
                only_error_added(a, b, "Cannot import submodule '"@ + c + "' from outside its package"@)
            },
        },
        None => *b == *a,
    }
}

/// One import item, by the kind of its first child: `*` (an identifier
/// whose token is a star), a module name, an aliased module or a
/// selection. Other items change nothing.
pub open spec fn import_item_done(a: &SemanticAnalyzer, b: &SemanticAnalyzer, reg: RegistryView, item: usize) -> bool {
    let nodes = a.ast.nodes@;
    match (if item < nodes.len() { nodes[item as int].first_child } else { None }) {
        Some(f) => if f < nodes.len() && nodes[f as int].node_type == NodeType::Identifier {
            if nodes[f as int].token matches Some(t) && t.kind == TokenKind::Star {
                star_import_done(a, b, reg, f)
            } else {
                module_import_done(a, b, reg, token_text(nodes, f), token_text(nodes, f), true)
            }
        } else if f < nodes.len() && nodes[f as int].node_type == NodeType::ImportAlias {
            module_import_done(a, b, reg, token_text(nodes, f), sibling_text(nodes, f), false)
        } else if f < nodes.len() && nodes[f as int].node_type == NodeType::ImportSelective {
            selective_import_done(a, b, reg, f)
        } else {
            *b == *a
        },
        None => *b == *a,
    }
}

/// The children of the first child of node `idx`: the items of an import
/// statement, the names of an export statement.
pub open spec fn listed_items(ast: &Ast, idx: usize) -> Seq<usize> {
    match (if idx < ast.nodes@.len() { ast.nodes@[idx as int].first_child } else { None }) {
        Some(list) => ast.child_list(list),
        None => Seq::empty(),
    }
}

/// `states` are the analyzer states while importing `items` in order: one
/// more than the items, each step the import of one item.
pub open spec fn import_chain(states: Seq<SemanticAnalyzer>, reg: RegistryView, items: Seq<usize>) -> bool {
    &&& states.len() == items.len() + 1
    &&& forall|i: int| 0 <= i < items.len() ==> #[trigger] import_item_done(&states[i], &states[i + 1], reg, items[i])
}

/// The texts of a list of strings.
pub open spec fn names_view(v: Seq<String>) -> Seq<Seq<char>> {
    Seq::new(v.len(), |i: int| v[i]@)
}

/// The exported names after exporting the names of nodes `ids` in order,
/// starting from `exported`: each defined name not yet exported is added.
pub open spec fn exports_after(scopes: ScopeStackView, exported: Seq<Seq<char>>, nodes: Seq<AstNode>, ids: Seq<usize>) -> Seq<Seq<char>>
    decreases ids.len(),
{
    if ids.len() == 0 {
        exported
    } else {
        let prev = exports_after(scopes, exported, nodes, ids.drop_last());
        match token_text(nodes, ids.last()) {
            Some(n) => if scopes.lookup(n) is Some && !prev.contains(n) {
                prev.push(n)
            } else {
                prev
            },
            None => prev,
        }
    }
}

/// The messages of exporting the names of nodes `ids` in order: an
/// undefined name, or one exported already, is an error.
pub open spec fn export_errors(scopes: ScopeStackView, exported: Seq<Seq<char>>, nodes: Seq<AstNode>, ids: Seq<usize>) -> Seq<Seq<char>>
    decreases ids.len(),
{
    if ids.len() == 0 {
        Seq::empty()
    } else {
        let prev = export_errors(scopes, exported, nodes, ids.drop_last());
        match token_text(nodes, ids.last()) {
            Some(n) => if scopes.lookup(n) is None {
                prev.push("Exported symbol '"@ + n + "' is not defined"@)
            } else if exports_after(scopes, exported, nodes, ids.drop_last()).contains(n) {
                prev.push("Symbol '"@ + n + "' is exported more than once"@)
            } else {
                prev
            },
            None => prev,
        }
    }
}

/// `after` is `before` followed by one error for each message of `ms`, in order.
pub open spec fn messages_added(before: Seq<SemanticError>, after: Seq<SemanticError>, ms: Seq<Seq<char>>) -> bool {
    &&& after.len() == before.len() + ms.len()
    &&& after.subrange(0, before.len() as int) == before
    &&& forall|q: int| 0 <= q < ms.len() ==> (#[trigger] after[before.len() + q]).message@ == ms[q]
}

/// Adding no error or one error with the next message extends `messages_added`.
proof fn lemma_messages_step(e0: Seq<SemanticError>, mid: Seq<SemanticError>, after: Seq<SemanticError>, ms: Seq<Seq<char>>)
    requires
        messages_added(e0, mid, ms),
        after == mid || (after.len() == mid.len() + 1 && after.subrange(0, mid.len() as int) == mid),
    ensures
        after == mid ==> messages_added(e0, after, ms),
        after != mid ==> messages_added(e0, after, ms.push(after.last().message@)),
{
    if after != mid {
        let ms2 = ms.push(after.last().message@);
        assert(after.subrange(0, e0.len() as int) =~= mid.subrange(0, e0.len() as int));
        assert forall|q: int| 0 <= q < ms2.len() implies (#[trigger] after[e0.len() + q]).message@ == ms2[q] by {
            if q < ms.len() {
                assert(after[e0.len() + q] == after.subrange(0, mid.len() as int)[e0.len() + q]);
            }
        }
    }
}

/// Errors added in two steps are added in one.
pub proof fn lemma_messages_append(
    e0: Seq<SemanticError>,
    e1: Seq<SemanticError>,
    e2: Seq<SemanticError>,
    ms1: Seq<Seq<char>>,
    ms2: Seq<Seq<char>>,
)
    requires
        messages_added(e0, e1, ms1),
        messages_added(e1, e2, ms2),
    ensures
        messages_added(e0, e2, ms1 + ms2),
{
    let ms = ms1 + ms2;
    assert(e2.subrange(0, e0.len() as int) =~= e1.subrange(0, e0.len() as int)) by {
        assert(e2.subrange(0, e1.len() as int) == e1);
    }
    assert forall|q: int| 0 <= q < ms.len() implies (#[trigger] e2[e0.len() + q]).message@ == ms[q] by {
        if q < ms1.len() {
            assert(e2[e0.len() + q] == e2.subrange(0, e1.len() as int)[e0.len() + q]);
        } else {
            assert(e2[e1.len() + (q - ms1.len())] == e2[e0.len() + q]);
        }
    }
}

} // verus!
