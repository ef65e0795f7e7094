//! Symbols, symbol tables and the stack of nested scopes.

use vstd::prelude::*;
use crate::lexer::Token;
use crate::string_storage::str_equal;
use super::types::TypeId;

verus! {

/// Represents a semantic analysis error
#[derive(Debug, PartialEq)]
pub struct SemanticError {
    pub message: String,
    pub line: usize,
    pub column: usize,
}

impl SemanticError {
    /// Creates an error with a message and a position.
    pub fn new(message: String, line: usize, column: usize) -> (r: Self)
        ensures
            r.message@ == message@,
            r.line == line,
            r.column == column,
    {
        SemanticError { message, line, column }
    }

    /// Creates an error located at a token.
    pub fn from_token(message: String, token: &Token) -> (r: Self)
        ensures
            r.message@ == message@,
            r.line == token.line,
            r.column == token.column,
    {
        SemanticError { message, line: token.line, column: token.column }
    }

    /// The error rendered as "Semantic error at LINE:COLUMN: MESSAGE".
    pub fn to_string(&self) -> (r: String)
        ensures
            r@ == seq!['S', 'e', 'm', 'a', 'n', 't', 'i', 'c', ' ', 'e', 'r', 'r', 'o', 'r', ' ', 'a', 't', ' ']
                + crate::text::decimal(self.line as nat) + seq![':'] + crate::text::decimal(
                self.column as nat,
            ) + seq![':', ' '] + self.message@,
    {
        let mut s = String::from_str("Semantic error at ");
        proof {
            reveal_strlit("Semantic error at ");
        }
        let l = crate::text::usize_text(self.line);
        s.append(l.as_str());
        s.append(":");
        proof {
            reveal_strlit(":");
        }
        let c = crate::text::usize_text(self.column);
        s.append(c.as_str());
        s.append(": ");
        proof {
            reveal_strlit(": ");
        }
        s.append(self.message.as_str());
        s
    }
}

impl Clone for SemanticError {
    fn clone(&self) -> (r: Self)
        ensures
            r.message@ == self.message@,
            r.line == self.line,
            r.column == self.column,
    {
        SemanticError { message: self.message.clone(), line: self.line, column: self.column }
    }
}

/// Represents the kind of symbol in the symbol table
#[derive(Debug, Clone, Copy, PartialEq, Eq, Structural)]
pub enum SymbolKind {
    Variable,
    Function,
    Type,
    Module,
}

/// Represents the kind of scope
#[derive(Debug, Clone, Copy, PartialEq, Eq, Structural)]
pub enum ScopeKind {
    /// File-level scope
    Global,
    /// Module scope
    Module,
    /// Function body scope
    Function,
    /// Block scope (nested blocks, match arms)
    Block,
}

/// Represents a symbol in the symbol table
#[derive(Debug, PartialEq)]
pub struct Symbol {
    /// The name of the symbol
    pub name: String,
    /// The type of the symbol as a string, if known
    pub type_label: Option<String>,
    /// The kind of symbol (variable, function, or type)
    pub kind: SymbolKind,
    /// The structured type ID for type checking
    pub type_id: Option<TypeId>,
}

/// A symbol as a value.
pub struct SymbolView {
    pub name: Seq<char>,
    pub type_label: Option<Seq<char>>,
    pub kind: SymbolKind,
    pub type_id: Option<TypeId>,
}

/// The view of an optional string.
pub open spec fn opt_text(o: Option<String>) -> Option<Seq<char>> {
    match o {
        Some(s) => Some(s@),
        None => None,
    }
}

impl View for Symbol {
    type V = SymbolView;

    open spec fn view(&self) -> SymbolView {
        SymbolView {
            name: self.name@,
            type_label: opt_text(self.type_label),
            kind: self.kind,
            type_id: self.type_id,
        }
    }
}

/// A copy of an optional string.
pub fn copy_opt_text(o: &Option<String>) -> (r: Option<String>)
    ensures
        opt_text(r) == opt_text(*o),
{
    match o {
        Some(s) => Some(s.clone()),
        None => None,
    }
}

impl Clone for Symbol {
    fn clone(&self) -> (r: Self)
        ensures
            r@ == self@,
    {
        Symbol {
            name: self.name.clone(),
            type_label: copy_opt_text(&self.type_label),
            kind: self.kind,
            type_id: self.type_id,
        }
    }
}

impl Symbol {
    /// Creates a new symbol without a structured type
    pub fn new(name: String, type_label: Option<String>, kind: SymbolKind) -> (r: Self)
        ensures
            r@ == (SymbolView { name: name@, type_label: opt_text(type_label), kind, type_id: None }),
    {
        Symbol { name, type_label, kind, type_id: None }
    }

    /// Builder method to set the structured type ID
    pub fn with_type_id(self, type_id: TypeId) -> (r: Self)
        ensures
            r@ == (SymbolView { type_id: Some(type_id), ..self@ }),
    {
        let mut s = self;
        s.type_id = Some(type_id);
        s
    }
}

// ========== Symbol tables ==========

/// The map from names to symbols described by a list of entries; later
/// entries win.
pub open spec fn symbols_map(s: Seq<SymbolView>) -> Map<Seq<char>, SymbolView>
    decreases s.len(),
{
    if s.len() == 0 {
        Map::empty()
    } else {
        symbols_map(s.drop_last()).insert(s.last().name, s.last())
    }
}

/// No name occurs twice in a list of entries.
pub open spec fn names_distinct(s: Seq<SymbolView>) -> bool {
    forall|i: int, j: int| 0 <= i < j < s.len() ==> s[i].name != s[j].name
}

proof fn lemma_symbols_at(s: Seq<SymbolView>, i: int)
    requires
        names_distinct(s),
        0 <= i < s.len(),
    ensures
        symbols_map(s).contains_key(s[i].name),
        symbols_map(s)[s[i].name] == s[i],
    decreases s.len(),
{
    if i < s.len() - 1 {
        lemma_symbols_at(s.drop_last(), i);
    }
}

proof fn lemma_symbols_absent(s: Seq<SymbolView>, n: Seq<char>)
    requires
        forall|i: int| 0 <= i < s.len() ==> s[i].name != n,
    ensures
        !symbols_map(s).contains_key(n),
    decreases s.len(),
{
    if s.len() > 0 {
        lemma_symbols_absent(s.drop_last(), n);
    }
}

proof fn lemma_symbols_update(s: Seq<SymbolView>, i: int, x: SymbolView)
    requires
        names_distinct(s),
        0 <= i < s.len(),
        x.name == s[i].name,
    ensures
        symbols_map(s.update(i, x)) == symbols_map(s).insert(x.name, x),
    decreases s.len(),
{
    let u = s.update(i, x);
    if i == s.len() - 1 {
        assert(u.drop_last() =~= s.drop_last());
        assert(symbols_map(u) =~= symbols_map(s).insert(x.name, x));
    } else {
        assert(u.drop_last() =~= s.drop_last().update(i, x));
        lemma_symbols_update(s.drop_last(), i, x);
        assert(symbols_map(u) =~= symbols_map(s).insert(x.name, x));
    }
}

proof fn lemma_symbols_len(s: Seq<SymbolView>)
    requires
        names_distinct(s),
    ensures
        symbols_map(s).dom().finite(),
        symbols_map(s).dom().len() == s.len(),
    decreases s.len(),
{
    if s.len() > 0 {
        lemma_symbols_len(s.drop_last());
        lemma_symbols_absent(s.drop_last(), s.last().name);
    }
}

/// Symbol table for storing and looking up symbols in a scope
#[derive(Debug)]
pub struct SymbolTable {
    symbols: Vec<Symbol>,
}

impl View for SymbolTable {
    type V = Map<Seq<char>, SymbolView>;

    closed spec fn view(&self) -> Map<Seq<char>, SymbolView> {
        symbols_map(self.entries())
    }
}

impl SymbolTable {
    closed spec fn entries(self) -> Seq<SymbolView> {
        Seq::new(self.symbols@.len(), |i: int| self.symbols@[i]@)
    }

    #[verifier::type_invariant]
    closed spec fn inv(self) -> bool {
        names_distinct(self.entries())
    }

    /// Creates a new empty symbol table
    pub fn new() -> (r: Self)
        ensures
            r@ == Map::<Seq<char>, SymbolView>::empty(),
    {
        let r = SymbolTable { symbols: Vec::new() };
        assert(r.entries() =~= Seq::<SymbolView>::empty());
        r
    }

    fn position(&self, name: &str) -> (r: Option<usize>)
        ensures
            r matches Some(i) ==> i < self.symbols@.len() && self@.contains_key(name@)
                && self@[name@] == self.symbols@[i as int]@ && self.symbols@[i as int].name@ == name@,
            r is None ==> !self@.contains_key(name@),
    {
        proof {
            use_type_invariant(self);
        }
        let n = self.symbols.len();
        let mut i: usize = 0;
        while i < n
            invariant
                n == self.symbols@.len(),
                names_distinct(self.entries()),
                0 <= i <= n,
                forall|k: int| 0 <= k < i ==> self.entries()[k].name != name@,
            decreases n - i,
        {
            if str_equal(self.symbols[i].name.as_str(), name) {
                proof {
                    assert(self.entries()[i as int].name == name@);
                    lemma_symbols_at(self.entries(), i as int);
                }
                return Some(i);
            }
            i = i + 1;
        }
        proof {
            lemma_symbols_absent(self.entries(), name@);
        }
        None
    }

    /// Inserts a symbol into the table.
    /// Returns true if the symbol was newly inserted, false if a symbol of
    /// that name already existed (the table is then unchanged).
    pub fn insert(&mut self, symbol: Symbol) -> (r: bool)
        ensures
            r == !old(self)@.contains_key(symbol.name@),
            r ==> final(self)@ == old(self)@.insert(symbol.name@, symbol@),
            !r ==> final(self)@ == old(self)@,
    {
        if self.position(symbol.name.as_str()).is_some() {
            false
        } else {
            self.insert_or_replace(symbol);
            true
        }
    }

    /// Inserts or replaces a symbol in the table
    pub fn insert_or_replace(&mut self, symbol: Symbol)
        ensures
            final(self)@ == old(self)@.insert(symbol.name@, symbol@),
    {
        proof {
            use_type_invariant(&*self);
        }
        let ghost old_entries = self.entries();
        let pos = self.position(symbol.name.as_str());
        let ghost sv = symbol@;
        let mut symbols: Vec<Symbol> = Vec::new();
        std::mem::swap(&mut symbols, &mut self.symbols);
        match pos {
            Some(i) => {
                proof {
                    assert(old_entries[i as int].name == sv.name);
                }
                symbols.set(i, symbol);
                proof {
                    let ne = Seq::new(symbols@.len(), |k: int| symbols@[k]@);
                    assert(ne =~= old_entries.update(i as int, sv));
                    lemma_symbols_update(old_entries, i as int, sv);
                }
            },
            None => {
                proof {
                    assert forall|k: int| 0 <= k < old_entries.len() implies old_entries[k].name
                        != sv.name by {
                        if old_entries[k].name == sv.name {
                            lemma_symbols_at(old_entries, k);
                        }
                    }
                }
                symbols.push(symbol);
                proof {
                    let ne = Seq::new(symbols@.len(), |k: int| symbols@[k]@);
                    assert(ne =~= old_entries.push(sv));
                    assert(ne.drop_last() =~= old_entries);
                }
            },
        }
        self.symbols = symbols;
    }

    /// Looks up a symbol by name
    pub fn lookup(&self, name: &str) -> (r: Option<&Symbol>)
        ensures
            r matches Some(s) ==> self@.contains_key(name@) && self@[name@] == s@,
            r is None ==> !self@.contains_key(name@),
    {
        match self.position(name) {
            Some(i) => Some(&self.symbols[i]),
            None => None,
        }
    }

    /// Checks if a symbol exists in the table
    pub fn contains(&self, name: &str) -> (r: bool)
        ensures
            r == self@.contains_key(name@),
    {
        self.position(name).is_some()
    }

    /// Returns the number of symbols in the table
    pub fn len(&self) -> (r: usize)
        ensures
            r == self@.dom().len(),
            self@.dom().finite(),
    {
        proof {
            use_type_invariant(self);
            lemma_symbols_len(self.entries());
        }
        self.symbols.len()
    }

    /// Returns true if the symbol table is empty
    pub fn is_empty(&self) -> (r: bool)
        ensures
            r == (self@.dom().len() == 0),
    {
        self.len() == 0
    }
}

impl Clone for SymbolTable {
    fn clone(&self) -> (r: Self)
        ensures
            r@ == self@,
    {
        proof {
            use_type_invariant(self);
        }
        let mut symbols: Vec<Symbol> = Vec::new();
        let mut i: usize = 0;
        while i < self.symbols.len()
            invariant
                0 <= i <= self.symbols@.len(),
                symbols@.len() == i,
                forall|k: int| 0 <= k < i ==> symbols@[k]@ == self.symbols@[k]@,
            decreases self.symbols@.len() - i,
        {
            symbols.push(self.symbols[i].clone());
            i = i + 1;
        }
        proof {
            let ne = Seq::new(symbols@.len(), |k: int| symbols@[k]@);
            assert(ne =~= self.entries());
        }
        SymbolTable { symbols }
    }
}

impl Default for SymbolTable {
    fn default() -> (r: Self)
        ensures
            r@ == Map::<Seq<char>, SymbolView>::empty(),
    {
        Self::new()
    }
}

// ========== Scopes ==========

/// Represents a single scope in the scope hierarchy
#[derive(Debug)]
pub struct Scope {
    /// The kind of this scope
    pub kind: ScopeKind,
    /// The symbol table for this scope
    pub symbols: SymbolTable,
    /// Index of parent scope (None for global scope)
    pub parent: Option<usize>,
}

/// A scope as a value.
pub struct ScopeView {
    pub kind: ScopeKind,
    pub symbols: Map<Seq<char>, SymbolView>,
    pub parent: Option<usize>,
}

impl View for Scope {
    type V = ScopeView;

    open spec fn view(&self) -> ScopeView {
        ScopeView { kind: self.kind, symbols: self.symbols@, parent: self.parent }
    }
}

impl Clone for Scope {
    fn clone(&self) -> (r: Self)
        ensures
            r@ == self@,
    {
        Scope { kind: self.kind, symbols: self.symbols.clone(), parent: self.parent }
    }
}

impl Scope {
    /// Creates a new scope with the given kind and parent
    pub fn new(kind: ScopeKind, parent: Option<usize>) -> (r: Self)
        ensures
            r@ == (ScopeView { kind, symbols: Map::empty(), parent }),
    {
        Scope { kind, symbols: SymbolTable::new(), parent }
    }

    /// Inserts a symbol into this scope's symbol table.
    /// Returns true if inserted, false if the name already exists.
    pub fn insert_symbol(&mut self, symbol: Symbol) -> (r: bool)
        ensures
            r == !old(self)@.symbols.contains_key(symbol.name@),
            r ==> final(self)@ == (ScopeView {
                symbols: old(self)@.symbols.insert(symbol.name@, symbol@),
                ..old(self)@
            }),
            !r ==> final(self)@ == old(self)@,
    {
        self.symbols.insert(symbol)
    }

    /// Looks up a symbol in this scope only (does not check parent)
    pub fn lookup_local(&self, name: &str) -> (r: Option<&Symbol>)
        ensures
            r matches Some(s) ==> self@.symbols.contains_key(name@) && self@.symbols[name@] == s@,
            r is None ==> !self@.symbols.contains_key(name@),
    {
        self.symbols.lookup(name)
    }
}

/// The scopes and the stack of active scopes, as values.
pub struct ScopeStackView {
    pub scopes: Seq<ScopeView>,
    pub stack: Seq<usize>,
}

/// Looks a name up in scope `idx`, then in its ancestors.
pub open spec fn chain_lookup(scopes: Seq<ScopeView>, idx: int, name: Seq<char>) -> Option<SymbolView>
    decreases idx,
{
    if 0 <= idx < scopes.len() {
        if scopes[idx].symbols.contains_key(name) {
            Some(scopes[idx].symbols[name])
        } else {
            match scopes[idx].parent {
                Some(p) => if (p as int) < idx {
                    chain_lookup(scopes, p as int, name)
                } else {
                    None
                },
                None => None,
            }
        }
    } else {
        None
    }
}

impl ScopeStackView {
    /// Well-formedness: the global scope is at the bottom of the stack, each
    /// scope's parent was created before it, and each active scope is the
    /// child of the scope below it on the stack.
    pub open spec fn wf(self) -> bool {
        &&& self.scopes.len() >= 1
        &&& self.stack.len() >= 1
        &&& self.stack[0] == 0
        &&& self.scopes[0].kind == ScopeKind::Global
        &&& self.scopes[0].parent is None
        &&& forall|i: int| 0 <= i < self.scopes.len() ==> (#[trigger] self.scopes[i].parent matches Some(p) ==> p < i)
        &&& forall|k: int| 0 <= k < self.stack.len() ==> #[trigger] self.stack[k] < self.scopes.len()
        &&& forall|k: int| 1 <= k < self.stack.len() ==> self.scopes[#[trigger] self.stack[k] as int].parent == Some(self.stack[k - 1])
    }

    /// The current (innermost active) scope.
    pub open spec fn top(self) -> int {
        self.stack.last() as int
    }

    /// The symbol a name resolves to from the current scope.
    pub open spec fn lookup(self, name: Seq<char>) -> Option<SymbolView> {
        chain_lookup(self.scopes, self.top(), name)
    }

    /// The state after entering a new scope of the given kind.
    pub open spec fn entered(self, kind: ScopeKind) -> ScopeStackView {
        ScopeStackView {
            scopes: self.scopes.push(
                ScopeView { kind, symbols: Map::empty(), parent: Some(self.stack.last()) },
            ),
            stack: self.stack.push(self.scopes.len() as usize),
        }
    }

    /// The state after leaving the current scope.
    pub open spec fn exited(self) -> ScopeStackView {
        ScopeStackView { scopes: self.scopes, stack: self.stack.drop_last() }
    }

    /// The state after adding a symbol to the current scope.
    pub open spec fn declared(self, s: SymbolView) -> ScopeStackView {
        ScopeStackView {
            scopes: self.scopes.update(
                self.top(),
                ScopeView {
                    symbols: self.scopes[self.top()].symbols.insert(s.name, s),
                    ..self.scopes[self.top()]
                },
            ),
            stack: self.stack,
        }
    }
}

/// Manages a stack of nested scopes
#[derive(Debug)]
pub struct ScopeStack {
    /// Arena of all scopes (indexed by scope id)
    scopes: Vec<Scope>,
    /// Stack of current scope indices (top = current scope)
    current_stack: Vec<usize>,
}

impl View for ScopeStack {
    type V = ScopeStackView;

    closed spec fn view(&self) -> ScopeStackView {
        ScopeStackView {
            scopes: Seq::new(self.scopes@.len(), |i: int| self.scopes@[i]@),
            stack: self.current_stack@,
        }
    }
}

impl ScopeStack {
    /// Well-formedness of the scope stack (see [`ScopeStackView::wf`]).
    pub open spec fn wf(&self) -> bool {
        self@.wf()
    }

    /// Creates a new scope stack with a global scope
    pub fn new() -> (r: Self)
        ensures
            r.wf(),
            r@.scopes == seq![ScopeView { kind: ScopeKind::Global, symbols: Map::empty(), parent: None }],
            r@.stack == seq![0usize],
    {
        let mut scopes: Vec<Scope> = Vec::new();
        scopes.push(Scope::new(ScopeKind::Global, None));
        let mut current_stack: Vec<usize> = Vec::new();
        current_stack.push(0);
        let r = ScopeStack { scopes, current_stack };
        assert(r@.scopes =~= seq![ScopeView { kind: ScopeKind::Global, symbols: Map::empty(), parent: None }]);
        assert(r@.stack =~= seq![0usize]);
        r
    }

    /// Enters a new scope of the given kind.
    /// Returns the index of the newly created scope.
    pub fn enter_scope(&mut self, kind: ScopeKind) -> (r: usize)
        requires
            old(self).wf(),
        ensures
            final(self).wf(),
            final(self)@ == old(self)@.entered(kind),
            r == old(self)@.scopes.len(),
    {
        let parent_idx = self.current_stack[self.current_stack.len() - 1];
        let scope_idx = self.scopes.len();
        let ghost old_view = self@;
        proof {
            lemma_entered_wf(old_view, kind);
        }
        self.scopes.push(Scope::new(kind, Some(parent_idx)));
        self.current_stack.push(scope_idx);
        assert(self@.scopes =~= old_view.entered(kind).scopes);
        assert(self@.stack =~= old_view.entered(kind).stack);
        scope_idx
    }

    /// Exits the current scope and returns its index.
    /// The global scope cannot be exited.
    pub fn exit_scope(&mut self) -> (r: usize)
        requires
            old(self).wf(),
            old(self)@.stack.len() > 1,
        ensures
            final(self).wf(),
            final(self)@ == old(self)@.exited(),
            r == old(self)@.stack.last(),
    {
        let ghost old_view = self@;
        let r = self.current_stack.pop().unwrap();
        assert(self@.stack =~= old_view.exited().stack);
        assert(self@.scopes =~= old_view.scopes);
        r
    }

    /// Returns the index of the current scope
    pub fn current_scope_index(&self) -> (r: usize)
        requires
            self.wf(),
        ensures
            r == self@.top(),
            r < self@.scopes.len(),
    {
        self.current_stack[self.current_stack.len() - 1]
    }

    /// Returns a reference to the current scope
    pub fn current_scope(&self) -> (r: &Scope)
        requires
            self.wf(),
        ensures
            r@ == self@.scopes[self@.top()],
    {
        let idx = self.current_scope_index();
        &self.scopes[idx]
    }

    /// Returns the scope at an index
    pub fn scope_at(&self, idx: usize) -> (r: &Scope)
        requires
            idx < self@.scopes.len(),
        ensures
            r@ == self@.scopes[idx as int],
    {
        &self.scopes[idx]
    }

    /// Returns a mutable reference to the current scope
    pub fn current_scope_mut(&mut self) -> (r: &mut Scope)
        requires
            old(self).wf(),
        ensures
            (*r)@ == old(self)@.scopes[old(self)@.top()],
            final(self)@.stack == old(self)@.stack,
            final(self)@.scopes == old(self)@.scopes.update(old(self)@.top(), (*final(r))@),
    {
        let idx = self.current_scope_index();
        let ghost old_view = self@;
        let r = &mut self.scopes[idx];
        r
    }

    /// Inserts a symbol into the current scope.
    /// Returns true if inserted, false if the name already exists in the
    /// current scope (the stack is then unchanged).
    pub fn insert(&mut self, symbol: Symbol) -> (r: bool)
        requires
            old(self).wf(),
        ensures
            final(self).wf(),
            r == !old(self)@.scopes[old(self)@.top()].symbols.contains_key(symbol.name@),
            r ==> final(self)@ == old(self)@.declared(symbol@),
            !r ==> final(self)@ == old(self)@,
    {
        let idx = self.current_scope_index();
        let ghost old_view = self@;
        let ghost sv = symbol@;
        let mut scopes: Vec<Scope> = Vec::new();
        std::mem::swap(&mut scopes, &mut self.scopes);
        let mut scope = scopes.remove(idx);
        let r = scope.insert_symbol(symbol);
        scopes.insert(idx, scope);
        self.scopes = scopes;
        proof {
            if r {
                assert(self@.scopes =~= old_view.declared(sv).scopes);
            } else {
                assert(self@.scopes =~= old_view.scopes);
            }
        }
        r
    }

    /// Inserts a symbol into the current scope, replacing any symbol of the
    /// same name there.
    pub fn insert_or_replace(&mut self, symbol: Symbol)
        requires
            old(self).wf(),
        ensures
            final(self).wf(),
            final(self)@ == old(self)@.declared(symbol@),
    {
        let idx = self.current_scope_index();
        let ghost old_view = self@;
        let ghost sv = symbol@;
        let mut scopes: Vec<Scope> = Vec::new();
        std::mem::swap(&mut scopes, &mut self.scopes);
        let mut scope = scopes.remove(idx);
        scope.symbols.insert_or_replace(symbol);
        scopes.insert(idx, scope);
        self.scopes = scopes;
        assert(self@.scopes =~= old_view.declared(sv).scopes);
    }

    /// Looks up a symbol by searching the scope chain from current to global
    pub fn lookup(&self, name: &str) -> (r: Option<&Symbol>)
        requires
            self.wf(),
        ensures
            r matches Some(s) ==> self@.lookup(name@) == Some(s@),
            r is None ==> self@.lookup(name@) is None,
    {
        let mut current_idx = self.current_scope_index();
        loop
            invariant
                self.wf(),
                current_idx < self@.scopes.len(),
                chain_lookup(self@.scopes, current_idx as int, name@) == self@.lookup(name@),
            decreases current_idx,
        {
            let scope = &self.scopes[current_idx];
            match scope.lookup_local(name) {
                Some(symbol) => {
                    return Some(symbol);
                },
                None => {},
            }
            match scope.parent {
                Some(parent_idx) => {
                    assert(self@.scopes[current_idx as int].parent == Some(parent_idx));
                    current_idx = parent_idx;
                },
                None => {
                    return None;
                },
            }
        }
    }

    /// Returns true if a symbol exists in the current scope chain
    pub fn contains(&self, name: &str) -> (r: bool)
        requires
            self.wf(),
        ensures
            r == (self@.lookup(name@) is Some),
    {
        self.lookup(name).is_some()
    }

    /// Returns the current scope depth (0 = global, 1 = first nested scope, etc.)
    pub fn depth(&self) -> (r: usize)
        requires
            self.wf(),
        ensures
            r == self@.stack.len() - 1,
    {
        self.current_stack.len() - 1
    }

    /// Returns true if current scope is inside a function or block (mutable context).
    /// Variables declared in mutable scopes can be reassigned.
    pub fn is_in_mutable_scope(&self) -> (r: bool)
        requires
            self.wf(),
        ensures
            r == exists|k: int|
                0 <= k < self@.stack.len() && (self@.scopes[#[trigger] self@.stack[k] as int].kind
                    == ScopeKind::Function || self@.scopes[self@.stack[k] as int].kind
                    == ScopeKind::Block),
    {
        let mut k: usize = 0;
        while k < self.current_stack.len()
            invariant
                self.wf(),
                0 <= k <= self@.stack.len(),
                forall|j: int|
                    0 <= j < k ==> !(self@.scopes[#[trigger] self@.stack[j] as int].kind
                        == ScopeKind::Function || self@.scopes[self@.stack[j] as int].kind
                        == ScopeKind::Block),
            decreases self@.stack.len() - k,
        {
            let idx = self.current_stack[k];
            match self.scopes[idx].kind {
                ScopeKind::Function | ScopeKind::Block => {
                    return true;
                },
                _ => {},
            }
            k = k + 1;
        }
        false
    }
}

impl Default for ScopeStack {
    fn default() -> (r: Self)
        ensures
            r.wf(),
            r@.stack.len() == 1,
    {
        Self::new()
    }
}

// ========== Laws of scopes ==========

/// Entering a scope keeps the scope stack well formed.
pub proof fn lemma_entered_wf(v: ScopeStackView, kind: ScopeKind)
    requires
        v.wf(),
        v.scopes.len() <= usize::MAX,
    ensures
        v.entered(kind).wf(),
{
    let e = v.entered(kind);
    let n = v.scopes.len();
    assert forall|i: int| 0 <= i < e.scopes.len() implies (#[trigger] e.scopes[i].parent matches Some(p) ==> p < i) by {
        if i < n {
            assert(e.scopes[i] == v.scopes[i]);
        }
    }
    assert forall|k: int| 0 <= k < e.stack.len() implies #[trigger] e.stack[k] < e.scopes.len() by {
        if k < v.stack.len() {
            assert(e.stack[k] == v.stack[k]);
        }
    }
    assert forall|k: int| 1 <= k < e.stack.len() implies e.scopes[#[trigger] e.stack[k] as int].parent
        == Some(e.stack[k - 1]) by {
        if k < v.stack.len() {
            assert(e.stack[k] == v.stack[k]);
            assert(e.stack[k - 1] == v.stack[k - 1]);
            assert(e.scopes[v.stack[k] as int] == v.scopes[v.stack[k] as int]);
        } else {
            assert(e.stack[k] == n);
            assert(e.stack[k - 1] == v.stack.last());
        }
    }
}

proof fn lemma_chain_lookup_push(scopes: Seq<ScopeView>, x: ScopeView, idx: int, name: Seq<char>)
    requires
        0 <= idx < scopes.len(),
    ensures
        chain_lookup(scopes.push(x), idx, name) == chain_lookup(scopes, idx, name),
    decreases idx,
{
    let s2 = scopes.push(x);
    assert(s2[idx] == scopes[idx]);
    if !scopes[idx].symbols.contains_key(name) {
        match scopes[idx].parent {
            Some(p) => if (p as int) < idx {
                lemma_chain_lookup_push(scopes, x, p as int, name);
            },
            None => {},
        }
    }
}

/// Law: a symbol declared in the current scope is what lookup then finds
/// for its name, whatever outer scopes hold.
pub proof fn lemma_declared_then_found(v: ScopeStackView, s: SymbolView)
    requires
        v.wf(),
    ensures
        v.declared(s).wf(),
        v.declared(s).lookup(s.name) == Some(s),
{
    let d = v.declared(s);
    assert(d.scopes[d.top()].symbols.contains_key(s.name));
    assert forall|k: int| 1 <= k < d.stack.len() implies d.scopes[#[trigger] d.stack[k] as int].parent
        == Some(d.stack[k - 1]) by {
        assert(v.scopes[v.stack[k] as int].parent == Some(v.stack[k - 1]));
    }
    assert forall|i: int| 0 <= i < d.scopes.len() implies (#[trigger] d.scopes[i].parent matches Some(p) ==> p < i) by {
        assert(v.scopes[i].parent == d.scopes[i].parent);
    }
}

/// Law: entering a scope and leaving it again restores the active scopes
/// and what every name resolves to.
pub proof fn lemma_enter_exit_restores(v: ScopeStackView, kind: ScopeKind, name: Seq<char>)
    requires
        v.wf(),
    ensures
        v.entered(kind).exited().stack == v.stack,
        v.entered(kind).exited().lookup(name) == v.lookup(name),
{
    let w = v.entered(kind).exited();
    assert(w.stack =~= v.stack);
    lemma_chain_lookup_push(
        v.scopes,
        ScopeView { kind, symbols: Map::empty(), parent: Some(v.stack.last()) },
        v.top(),
        name,
    );
}

/// Law: a name declared in a new inner scope shadows any outer symbol of
/// the same name until that scope is left.
pub proof fn lemma_inner_shadows(v: ScopeStackView, kind: ScopeKind, s: SymbolView)
    requires
        v.wf(),
        v.scopes.len() <= usize::MAX,
    ensures
        v.entered(kind).declared(s).lookup(s.name) == Some(s),
        v.entered(kind).declared(s).exited().lookup(s.name) == v.lookup(s.name),
{
    let e = v.entered(kind);
    lemma_entered_wf(v, kind);
    lemma_declared_then_found(e, s);
    let d = e.declared(s);
    let w = d.exited();
    assert(e.top() == v.scopes.len());
    // the new scope is not on the chain from the old top
    assert(d.scopes.drop_last() =~= v.scopes);
    assert(d.scopes =~= v.scopes.push(d.scopes.last()));
    lemma_chain_lookup_push(v.scopes, d.scopes.last(), v.top(), s.name);
    assert(w.stack =~= v.stack);
}

} // verus!
