//! Module registry for cross-file module export tracking.
//!
//! Stores exported symbols per module so that the analyzer can resolve
//! imports across files during multi-file analysis.

use vstd::prelude::*;
use crate::assoc::{assoc, keys_unique, lemma_assoc_at, lemma_assoc_absent, lemma_assoc_update, lemma_assoc_push};
use crate::string_storage::str_equal;
use super::symbols::{SymbolKind, opt_text, copy_opt_text};

verus! {

/// A single exported symbol from a module
#[derive(Debug, PartialEq)]
pub struct ModuleExportedSymbol {
    pub name: String,
    pub kind: SymbolKind,
    pub type_label: Option<String>,
}

/// An exported symbol as a value.
pub struct ExportView {
    pub name: Seq<char>,
    pub kind: SymbolKind,
    pub type_label: Option<Seq<char>>,
}

impl View for ModuleExportedSymbol {
    type V = ExportView;

    open spec fn view(&self) -> ExportView {
        ExportView { name: self.name@, kind: self.kind, type_label: opt_text(self.type_label) }
    }
}

impl Clone for ModuleExportedSymbol {
    fn clone(&self) -> (r: Self)
        ensures
            r@ == self@,
    {
        ModuleExportedSymbol {
            name: self.name.clone(),
            kind: self.kind,
            type_label: copy_opt_text(&self.type_label),
        }
    }
}

impl ModuleExportedSymbol {
    /// Creates an exported symbol without a type label
    pub fn new(name: String, kind: SymbolKind) -> (r: Self)
        ensures
            r@ == (ExportView { name: name@, kind, type_label: None }),
    {
        ModuleExportedSymbol { name, kind, type_label: None }
    }

    /// Builder method that sets the type label
    pub fn with_type_label(self, type_label: String) -> (r: Self)
        ensures
            r@ == (ExportView { type_label: Some(type_label@), ..self@ }),
    {
        let mut s = self;
        s.type_label = Some(type_label);
        s
    }
}

/// The views of a list of exported symbols.
pub open spec fn exports_view(v: Seq<ModuleExportedSymbol>) -> Seq<ExportView> {
    Seq::new(v.len(), |i: int| v[i]@)
}

/// The registry as values: module name to its exports, the set of
/// submodules, and submodule name to parent module name.
pub struct RegistryView {
    pub modules: Map<Seq<char>, Seq<ExportView>>,
    pub submodules: Set<Seq<char>>,
    pub parents: Map<Seq<char>, Seq<char>>,
}

/// Position of the last '.' in a text, if any.
pub open spec fn last_dot(s: Seq<char>) -> Option<int> {
    if exists|i: int| 0 <= i < s.len() && s[i] == '.' {
        Some(choose|i: int| 0 <= i < s.len() && s[i] == '.' && forall|j: int| i < j < s.len() ==> s[j] != '.')
    } else {
        None
    }
}

impl RegistryView {
    /// The canonical registry key of a module path: the path itself when it
    /// names a module, else for `parent.child` the child when it is a
    /// submodule registered under that parent.
    pub open spec fn resolve(self, path: Seq<char>) -> Option<Seq<char>> {
        if self.modules.contains_key(path) {
            Some(path)
        } else {
            match last_dot(path) {
                Some(d) => {
                    let parent = path.subrange(0, d);
                    let child = path.subrange(d + 1, path.len() as int);
                    if self.parents.contains_key(child) && self.parents[child] == parent
                        && self.modules.contains_key(child) {
                        Some(child)
                    } else {
                        None
                    }
                },
                None => None,
            }
        }
    }

    /// The first export of a module with the given name.
    pub open spec fn symbol(self, module: Seq<char>, name: Seq<char>) -> Option<ExportView> {
        if self.modules.contains_key(module) && exists|i: int|
            0 <= i < self.modules[module].len() && self.modules[module][i].name == name {
            let es = self.modules[module];
            Some(
                es[choose|i: int|
                    0 <= i < es.len() && es[i].name == name && forall|j: int|
                        0 <= j < i ==> es[j].name != name],
            )
        } else {
            None
        }
    }
}

/// Registry mapping module names to their exported symbols.
pub struct ModuleRegistry {
    modules: Vec<(String, Vec<ModuleExportedSymbol>)>,
    submodules: Vec<String>,
    submodule_parents: Vec<(String, String)>,
}

impl ModuleRegistry {
    closed spec fn module_entries(self) -> Seq<(Seq<char>, Seq<ExportView>)> {
        Seq::new(self.modules@.len(), |i: int| (self.modules@[i].0@, exports_view(self.modules@[i].1@)))
    }

    closed spec fn parent_entries(self) -> Seq<(Seq<char>, Seq<char>)> {
        Seq::new(self.submodule_parents@.len(), |i: int| (self.submodule_parents@[i].0@, self.submodule_parents@[i].1@))
    }

    closed spec fn submodule_names(self) -> Seq<Seq<char>> {
        Seq::new(self.submodules@.len(), |i: int| self.submodules@[i]@)
    }

    #[verifier::type_invariant]
    closed spec fn inv(self) -> bool {
        keys_unique(self.module_entries()) && keys_unique(self.parent_entries())
    }
}

impl View for ModuleRegistry {
    type V = RegistryView;

    closed spec fn view(&self) -> RegistryView {
        RegistryView {
            modules: assoc(self.module_entries()),
            submodules: self.submodule_names().to_set(),
            parents: assoc(self.parent_entries()),
        }
    }
}

impl ModuleRegistry {
    /// Creates a new empty registry
    pub fn new() -> (r: Self)
        ensures
            r@.modules == Map::<Seq<char>, Seq<ExportView>>::empty(),
            r@.submodules == Set::<Seq<char>>::empty(),
            r@.parents == Map::<Seq<char>, Seq<char>>::empty(),
    {
        let r = ModuleRegistry {
            modules: Vec::new(),
            submodules: Vec::new(),
            submodule_parents: Vec::new(),
        };
        assert(r.module_entries() =~= Seq::<(Seq<char>, Seq<ExportView>)>::empty());
        assert(r.parent_entries() =~= Seq::<(Seq<char>, Seq<char>)>::empty());
        assert(r.submodule_names() =~= Seq::<Seq<char>>::empty());
        assert(r@.modules =~= Map::<Seq<char>, Seq<ExportView>>::empty());
        assert(r@.parents =~= Map::<Seq<char>, Seq<char>>::empty());
        assert(r@.submodules =~= Set::<Seq<char>>::empty());
        r
    }

    fn module_position(&self, name: &str) -> (r: Option<usize>)
        ensures
            r matches Some(i) ==> i < self.modules@.len() && self.modules@[i as int].0@ == name@
                && self@.modules.contains_key(name@) && self@.modules[name@] == exports_view(
                self.modules@[i as int].1@,
            ),
            r is None ==> !self@.modules.contains_key(name@),
    {
        proof {
            use_type_invariant(self);
        }
        let n = self.modules.len();
        let mut i: usize = 0;
        while i < n
            invariant
                n == self.modules@.len(),
                keys_unique(self.module_entries()),
                0 <= i <= n,
                forall|k: int| 0 <= k < i ==> self.module_entries()[k].0 != name@,
            decreases n - i,
        {
            if str_equal(self.modules[i].0.as_str(), name) {
                proof {
                    assert(self.module_entries()[i as int].0 == name@);
                    lemma_assoc_at(self.module_entries(), i as int);
                }
                return Some(i);
            }
            i = i + 1;
        }
        proof {
            lemma_assoc_absent(self.module_entries(), name@);
        }
        None
    }

    fn parent_position(&self, name: &str) -> (r: Option<usize>)
        ensures
            r matches Some(i) ==> i < self.submodule_parents@.len()
                && self.submodule_parents@[i as int].0@ == name@ && self@.parents.contains_key(name@)
                && self@.parents[name@] == self.submodule_parents@[i as int].1@,
            r is None ==> !self@.parents.contains_key(name@),
    {
        proof {
            use_type_invariant(self);
        }
        let n = self.submodule_parents.len();
        let mut i: usize = 0;
        while i < n
            invariant
                n == self.submodule_parents@.len(),
                keys_unique(self.parent_entries()),
                0 <= i <= n,
                forall|k: int| 0 <= k < i ==> self.parent_entries()[k].0 != name@,
            decreases n - i,
        {
            if str_equal(self.submodule_parents[i].0.as_str(), name) {
                proof {
                    assert(self.parent_entries()[i as int].0 == name@);
                    lemma_assoc_at(self.parent_entries(), i as int);
                }
                return Some(i);
            }
            i = i + 1;
        }
        proof {
            lemma_assoc_absent(self.parent_entries(), name@);
        }
        None
    }

    fn ensure_module(&mut self, name: &String)
        ensures
            old(self)@.modules.contains_key(name@) ==> final(self)@.modules == old(self)@.modules,
            !old(self)@.modules.contains_key(name@) ==> final(self)@.modules == old(self)@.modules.insert(
                name@,
                Seq::<ExportView>::empty(),
            ),
            final(self)@.submodules == old(self)@.submodules,
            final(self)@.parents == old(self)@.parents,
    {
        proof {
            use_type_invariant(&*self);
        }
        if self.module_position(name.as_str()).is_none() {
            let ghost old_entries = self.module_entries();
            let mut modules: Vec<(String, Vec<ModuleExportedSymbol>)> = Vec::new();
            std::mem::swap(&mut modules, &mut self.modules);
            modules.push((name.clone(), Vec::new()));
            proof {
                let ne = Seq::new(modules@.len(), |i: int| (modules@[i].0@, exports_view(modules@[i].1@)));
                assert(exports_view(Seq::<ModuleExportedSymbol>::empty()) =~= Seq::<ExportView>::empty());
                assert(ne =~= old_entries.push((name@, Seq::<ExportView>::empty())));
                lemma_assoc_push(old_entries, name@, Seq::<ExportView>::empty());
            }
            self.modules = modules;
        }
    }

    /// Registers an empty module. If the module already exists, this is a no-op.
    pub fn register_module(&mut self, name: String)
        ensures
            old(self)@.modules.contains_key(name@) ==> final(self)@.modules == old(self)@.modules,
            !old(self)@.modules.contains_key(name@) ==> final(self)@.modules == old(self)@.modules.insert(
                name@,
                Seq::<ExportView>::empty(),
            ),
            final(self)@.submodules == old(self)@.submodules,
            final(self)@.parents == old(self)@.parents,
    {
        self.ensure_module(&name);
    }

    fn mark_submodule(&mut self, name: String)
        ensures
            final(self)@.modules == old(self)@.modules,
            final(self)@.submodules == old(self)@.submodules.insert(name@),
            final(self)@.parents == old(self)@.parents,
    {
        proof {
            use_type_invariant(&*self);
        }
        let ghost old_names = self.submodule_names();
        let mut subs: Vec<String> = Vec::new();
        std::mem::swap(&mut subs, &mut self.submodules);
        subs.push(name);
        self.submodules = subs;
        assert(self.submodule_names() =~= old_names.push(name@));
        assert forall|x: Seq<char>| self@.submodules.contains(x) <==> old(self)@.submodules.insert(name@).contains(x) by {
            let ns = old_names.push(name@);
            if ns.contains(x) {
                let k = choose|k: int| 0 <= k < ns.len() && ns[k] == x;
                if k < old_names.len() {
                    assert(old_names[k] == x);
                }
            }
            if old_names.contains(x) {
                let k = choose|k: int| 0 <= k < old_names.len() && old_names[k] == x;
                assert(ns[k] == x);
            }
            if x == name@ {
                assert(ns[old_names.len() as int] == x);
            }
        }
        assert(self@.submodules =~= old(self)@.submodules.insert(name@));
    }

    /// Registers a module and marks it as a submodule (declared with `module .name`).
    pub fn register_submodule(&mut self, name: String)
        ensures
            old(self)@.modules.contains_key(name@) ==> final(self)@.modules == old(self)@.modules,
            !old(self)@.modules.contains_key(name@) ==> final(self)@.modules == old(self)@.modules.insert(
                name@,
                Seq::<ExportView>::empty(),
            ),
            final(self)@.submodules == old(self)@.submodules.insert(name@),
            final(self)@.parents == old(self)@.parents,
    {
        self.ensure_module(&name);
        self.mark_submodule(name);
    }

    /// Registers a submodule and records its parent module name.
    pub fn register_submodule_with_parent(&mut self, name: String, parent: String)
        ensures
            old(self)@.modules.contains_key(name@) ==> final(self)@.modules == old(self)@.modules,
            !old(self)@.modules.contains_key(name@) ==> final(self)@.modules == old(self)@.modules.insert(
                name@,
                Seq::<ExportView>::empty(),
            ),
            final(self)@.submodules == old(self)@.submodules.insert(name@),
            final(self)@.parents == old(self)@.parents.insert(name@, parent@),
    {
        self.ensure_module(&name);
        let key = name.clone();
        self.mark_submodule(name);
        proof {
            use_type_invariant(&*self);
        }
        let ghost old_entries = self.parent_entries();
        let pos = self.parent_position(key.as_str());
        let mut parents: Vec<(String, String)> = Vec::new();
        std::mem::swap(&mut parents, &mut self.submodule_parents);
        match pos {
            Some(i) => {
                let ghost pv = parent@;
                parents.set(i, (key, parent));
                proof {
                    let ne = Seq::new(parents@.len(), |k: int| (parents@[k].0@, parents@[k].1@));
                    assert(ne =~= old_entries.update(i as int, (old_entries[i as int].0, pv)));
                    lemma_assoc_update(old_entries, i as int, pv);
                }
            },
            None => {
                let ghost kv = key@;
                let ghost pv = parent@;
                parents.push((key, parent));
                proof {
                    let ne = Seq::new(parents@.len(), |k: int| (parents@[k].0@, parents@[k].1@));
                    assert(ne =~= old_entries.push((kv, pv)));
                    lemma_assoc_push(old_entries, kv, pv);
                }
            },
        }
        self.submodule_parents = parents;
    }

    /// Returns the parent module name for a submodule, or None if not set.
    pub fn get_submodule_parent(&self, name: &str) -> (r: Option<&str>)
        ensures
            r matches Some(p) ==> self@.parents.contains_key(name@) && self@.parents[name@] == p@,
            r is None ==> !self@.parents.contains_key(name@),
    {
        match self.parent_position(name) {
            Some(i) => Some(self.submodule_parents[i].1.as_str()),
            None => None,
        }
    }

    /// Returns the canonical registry key for `path`, or None if unresolvable.
    ///
    /// 1. Direct match: `path` is a registered module name.
    /// 2. Qualified lookup: split on the last `.` into `parent` + `child`;
    ///    if the child's recorded parent is `parent`, the key is `child`.
    /// 3. Otherwise `None`.
    pub fn resolve_qualified_path(&self, path: &str) -> (r: Option<&str>)
        ensures
            r matches Some(k) ==> self@.resolve(path@) == Some(k@),
            r is None ==> self@.resolve(path@) is None,
    {
        match self.module_position(path) {
            Some(i) => {
                return Some(self.modules[i].0.as_str());
            },
            None => {},
        }
        let n = path.unicode_len();
        let mut j: usize = n;
        while j > 0
            invariant
                n == path@.len(),
                !self@.modules.contains_key(path@),
                0 <= j <= n,
                forall|k: int| j <= k < n ==> path@[k] != '.',
            decreases j,
        {
            if path.get_char(j - 1) == '.' {
                let d = j - 1;
                proof {
                    let ld = last_dot(path@);
                    assert(path@[d as int] == '.');
                    let c = choose|i: int| 0 <= i < path@.len() && path@[i] == '.' && forall|q: int| i < q < path@.len() ==> path@[q] != '.';
                    assert(c == d) by {
                        if c < d {
                            assert(path@[d as int] != '.');
                        } else if c > d {
                            assert(path@[c] != '.');
                        }
                    }
                    assert(ld == Some(d as int));
                }
                let parent = path.substring_char(0, d);
                let child = path.substring_char(d + 1, n);
                match self.parent_position(child) {
                    Some(p) => {
                        if str_equal(self.submodule_parents[p].1.as_str(), parent) {
                            match self.module_position(child) {
                                Some(i) => {
                                    return Some(self.modules[i].0.as_str());
                                },
                                None => {
                                    return None;
                                },
                            }
                        }
                        return None;
                    },
                    None => {
                        return None;
                    },
                }
            }
            j = j - 1;
        }
        proof {
            assert(!(exists|i: int| 0 <= i < path@.len() && path@[i] == '.'));
        }
        None
    }

    /// Returns true if the named module was declared as a submodule (`module .name`).
    pub fn is_submodule(&self, name: &str) -> (r: bool)
        ensures
            r == self@.submodules.contains(name@),
    {
        let n = self.submodules.len();
        let mut i: usize = 0;
        while i < n
            invariant
                n == self.submodules@.len(),
                0 <= i <= n,
                forall|k: int| 0 <= k < i ==> self.submodule_names()[k] != name@,
            decreases n - i,
        {
            if str_equal(self.submodules[i].as_str(), name) {
                assert(self.submodule_names()[i as int] == name@);
                return true;
            }
            i = i + 1;
        }
        false
    }

    /// Returns true if a module with the given name is registered
    pub fn module_exists(&self, name: &str) -> (r: bool)
        ensures
            r == self@.modules.contains_key(name@),
    {
        self.module_position(name).is_some()
    }

    /// Adds an exported symbol to a registered module.
    /// Returns true on success, false if the module does not exist.
    pub fn add_export(&mut self, module_name: &str, symbol: ModuleExportedSymbol) -> (r: bool)
        ensures
            r == old(self)@.modules.contains_key(module_name@),
            r ==> final(self)@.modules == old(self)@.modules.insert(
                module_name@,
                old(self)@.modules[module_name@].push(symbol@),
            ),
            !r ==> final(self)@.modules == old(self)@.modules,
            final(self)@.submodules == old(self)@.submodules,
            final(self)@.parents == old(self)@.parents,
    {
        proof {
            use_type_invariant(&*self);
        }
        match self.module_position(module_name) {
            None => false,
            Some(i) => {
                let ghost old_entries = self.module_entries();
                let ghost sv = symbol@;
                let mut modules: Vec<(String, Vec<ModuleExportedSymbol>)> = Vec::new();
                std::mem::swap(&mut modules, &mut self.modules);
                let (key, mut exports) = modules.remove(i);
                let ghost old_exports = exports@;
                exports.push(symbol);
                modules.insert(i, (key, exports));
                proof {
                    let ne = Seq::new(modules@.len(), |k: int| (modules@[k].0@, exports_view(modules@[k].1@)));
                    assert(exports_view(modules@[i as int].1@) =~= exports_view(old_exports).push(sv));
                    assert(ne =~= old_entries.update(i as int, (old_entries[i as int].0, exports_view(old_exports).push(sv))));
                    lemma_assoc_update(old_entries, i as int, exports_view(old_exports).push(sv));
                }
                self.modules = modules;
                true
            },
        }
    }

    /// Returns the exported symbols for a module, or None if not found.
    pub fn get_module_exports(&self, module_name: &str) -> (r: Option<&[ModuleExportedSymbol]>)
        ensures
            r matches Some(es) ==> self@.modules.contains_key(module_name@) && exports_view(es@)
                == self@.modules[module_name@],
            r is None ==> !self@.modules.contains_key(module_name@),
    {
        match self.module_position(module_name) {
            Some(i) => Some(self.modules[i].1.as_slice()),
            None => None,
        }
    }

    /// Returns a specific exported symbol by module name and symbol name.
    pub fn get_symbol(&self, module: &str, name: &str) -> (r: Option<&ModuleExportedSymbol>)
        ensures
            r matches Some(s) ==> self@.symbol(module@, name@) == Some(s@),
            r is None ==> self@.symbol(module@, name@) is None,
    {
        match self.module_position(module) {
            None => None,
            Some(i) => {
                let exports = &self.modules[i].1;
                let ghost es = exports_view(exports@);
                let n = exports.len();
                let mut j: usize = 0;
                while j < n
                    invariant
                        n == exports@.len(),
                        es == exports_view(exports@),
                        self@.modules.contains_key(module@),
                        self@.modules[module@] == es,
                        0 <= j <= n,
                        forall|k: int| 0 <= k < j ==> es[k].name != name@,
                    decreases n - j,
                {
                    if str_equal(exports[j].name.as_str(), name) {
                        proof {
                            assert(es[j as int].name == name@);
                            let c = choose|q: int| 0 <= q < es.len() && es[q].name == name@ && forall|p: int| 0 <= p < q ==> es[p].name != name@;
                            assert(c == j) by {
                                if c < j {
                                    assert(es[c].name != name@);
                                } else if c > j {
                                    assert(es[j as int].name != name@);
                                }
                            }
                        }
                        return Some(&exports[j]);
                    }
                    j = j + 1;
                }
                None
            },
        }
    }
}

fn copy_exports(v: &Vec<ModuleExportedSymbol>) -> (r: Vec<ModuleExportedSymbol>)
    ensures
        exports_view(r@) == exports_view(v@),
{
    let mut out: Vec<ModuleExportedSymbol> = Vec::new();
    let mut i: usize = 0;
    while i < v.len()
        invariant
            i <= v@.len(),
            out@.len() == i,
            forall|k: int| 0 <= k < i ==> (#[trigger] out@[k])@ == v@[k]@,
        decreases v@.len() - i,
    {
        out.push(v[i].clone());
        i = i + 1;
    }
    assert(exports_view(out@) =~= exports_view(v@));
    out
}

impl Clone for ModuleRegistry {
    fn clone(&self) -> (r: Self)
        ensures
            r@ == self@,
    {
        proof {
            use_type_invariant(self);
        }
        let mut modules: Vec<(String, Vec<ModuleExportedSymbol>)> = Vec::new();
        let mut i: usize = 0;
        while i < self.modules.len()
            invariant
                i <= self.modules@.len(),
                modules@.len() == i,
                forall|k: int|
                    0 <= k < i ==> (#[trigger] modules@[k]).0@ == self.modules@[k].0@ && exports_view(
                        modules@[k].1@,
                    ) == exports_view(self.modules@[k].1@),
            decreases self.modules@.len() - i,
        {
            modules.push((self.modules[i].0.clone(), copy_exports(&self.modules[i].1)));
            i = i + 1;
        }
        let mut submodules: Vec<String> = Vec::new();
        let mut i: usize = 0;
        while i < self.submodules.len()
            invariant
                i <= self.submodules@.len(),
                submodules@.len() == i,
                forall|k: int| 0 <= k < i ==> (#[trigger] submodules@[k])@ == self.submodules@[k]@,
            decreases self.submodules@.len() - i,
        {
            submodules.push(self.submodules[i].clone());
            i = i + 1;
        }
        let mut parents: Vec<(String, String)> = Vec::new();
        let mut i: usize = 0;
        while i < self.submodule_parents.len()
            invariant
                i <= self.submodule_parents@.len(),
                parents@.len() == i,
                forall|k: int|
                    0 <= k < i ==> (#[trigger] parents@[k]).0@ == self.submodule_parents@[k].0@
                        && parents@[k].1@ == self.submodule_parents@[k].1@,
            decreases self.submodule_parents@.len() - i,
        {
            parents.push((self.submodule_parents[i].0.clone(), self.submodule_parents[i].1.clone()));
            i = i + 1;
        }
        assert(Seq::new(modules@.len(), |i: int| (modules@[i].0@, exports_view(modules@[i].1@)))
            =~= self.module_entries());
        assert(Seq::new(parents@.len(), |i: int| (parents@[i].0@, parents@[i].1@)) =~= self.parent_entries());
        let r = ModuleRegistry { modules, submodules, submodule_parents: parents };
        assert(r.module_entries() =~= self.module_entries());
        assert(r.parent_entries() =~= self.parent_entries());
        assert(r.submodule_names() =~= self.submodule_names());
        r
    }
}

impl Default for ModuleRegistry {
    fn default() -> (r: Self)
        ensures
            r@.modules == Map::<Seq<char>, Seq<ExportView>>::empty(),
            r@.submodules == Set::<Seq<char>>::empty(),
            r@.parents == Map::<Seq<char>, Seq<char>>::empty(),
    {
        Self::new()
    }
}

/// Law: registering a module twice keeps its exports.
pub proof fn lemma_register_idempotent(v: RegistryView, name: Seq<char>)
    requires
        v.modules.contains_key(name),
    ensures
        v.resolve(name) == Some(name),
{
}

/// Law: a submodule registered under a parent resolves through the
/// qualified path `parent.child` to its own name.
pub proof fn lemma_qualified_resolves(v: RegistryView, parent: Seq<char>, child: Seq<char>)
    requires
        v.modules.contains_key(child),
        v.parents.contains_key(child),
        v.parents[child] == parent,
        !v.modules.contains_key(parent + seq!['.'] + child),
        forall|i: int| 0 <= i < child.len() ==> child[i] != '.',
    ensures
        v.resolve(parent + seq!['.'] + child) == Some(child),
{
    let path = parent + seq!['.'] + child;
    let d = parent.len() as int;
    assert(path[d] == '.');
    let c = choose|i: int| 0 <= i < path.len() && path[i] == '.' && forall|j: int| i < j < path.len() ==> path[j] != '.';
    assert(c == d) by {
        if c < d {
            assert(path[d] != '.');
        } else if c > d {
            assert(path[c] == child[c - d - 1]);
        }
    }
    assert(path.subrange(0, d) =~= parent);
    assert(path.subrange(d + 1, path.len() as int) =~= child);
}

} // verus!
