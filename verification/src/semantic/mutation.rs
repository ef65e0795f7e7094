//! Which parameters each function mutates. A parameter is mutated when the
//! body assigns one of its fields (`p.field: value`), calls on it a method
//! that assigns a field of `this`, or passes it to a function that mutates
//! that argument. The result of a function is a mask: bit i is set when
//! parameter i (counting from 0, below 64) is mutated.

use vstd::prelude::*;
use std::collections::HashMap;
use crate::ast::{Ast, NodeType};
use crate::string_storage::str_equal;
use super::types::{Type, TypeId, TypeRegistry, TypeView};
use super::symbols::SemanticError;
use super::analyzer::SemanticAnalyzer;

verus! {

broadcast use crate::prefix::group_prefix;

/// What the analysis records of a function declaration for the mutation
/// pass, which runs once types are solved.
pub struct FunctionDeclInfo {
    /// The declaration node
    pub node: usize,
    /// The function's name
    pub name: String,
    /// Parameter names, in order
    pub param_names: Vec<String>,
    /// Parameter types, in order
    pub param_type_ids: Vec<TypeId>,
    /// The body block, if any
    pub body_idx: Option<usize>,
    /// The struct the function is a method of, if any
    pub struct_context: Option<TypeId>,
}

/// What a function body mutates.
pub struct MutationResult {
    /// Bit i is set when parameter i is mutated
    pub param_mutations: u64,
    /// Whether the body assigns a field of `this`
    pub mutates_this: bool,
}

/// What the walk of one body knows: the function's parameters (types
/// solved) and what is known of the functions and methods before it.
pub struct MutationScan {
    pub param_names: Vec<String>,
    pub param_types: Vec<TypeId>,
    /// Masks of the functions analyzed so far, by declaration node
    pub function_masks: Vec<(usize, u64)>,
    /// Declaration node of each function, by name (later entries win)
    pub nodes_by_name: Vec<(String, usize)>,
    /// Whether each method analyzed so far mutates `this` (later entries win)
    pub method_flags: Vec<(TypeId, String, bool)>,
}

/// Bit `i` of `mask` is set.
pub open spec fn bit_set(mask: u64, i: u64) -> bool {
    (mask >> i) & 1u64 == 1u64
}

/// Only bits of the first `n` positions are set.
pub open spec fn mask_within(mask: u64, n: nat) -> bool {
    forall|i: u64| n <= i < 64 ==> !#[trigger] bit_set(mask, i)
}

/// The bits of `old` are all set in `new`.
pub open spec fn mask_grows(old: u64, new: u64) -> bool {
    forall|i: u64| i < 64 && #[trigger] bit_set(old, i) ==> bit_set(new, i)
}

proof fn lemma_set_bit(m: u64, j: u64, i: u64)
    by (bit_vector)
    requires
        j < 64,
        i < 64,
    ensures
        i != j ==> (((m | (1u64 << j)) >> i) & 1u64 == 1u64) == ((m >> i) & 1u64 == 1u64),
        ((m | (1u64 << j)) >> j) & 1u64 == 1u64,
{
}

/// Sets bit `idx` of the mask.
fn mark(result: &mut MutationResult, idx: usize, n: usize)
    requires
        idx < n,
        idx < 64,
        mask_within(old(result).param_mutations, n as nat),
    ensures
        mask_within(final(result).param_mutations, n as nat),
        mask_grows(old(result).param_mutations, final(result).param_mutations),
        bit_set(final(result).param_mutations, idx as u64),
        final(result).mutates_this == old(result).mutates_this,
        forall|i: u64|
            i < 64 ==> #[trigger] bit_set(final(result).param_mutations, i) == (bit_set(old(result).param_mutations, i)
                || i == idx as u64),
{
    let m = result.param_mutations;
    let j = idx as u64;
    result.param_mutations = m | (1u64 << j);
    proof {
        assert forall|i: u64| n <= i < 64 implies !#[trigger] bit_set(result.param_mutations, i) by {
            assert(i != j);
            assert(!bit_set(m, i));
            lemma_set_bit(m, j, i);
        }
        assert forall|i: u64| i < 64 && #[trigger] bit_set(m, i) implies bit_set(result.param_mutations, i) by {
            lemma_set_bit(m, j, i);
        }
        lemma_set_bit(m, j, j);
        assert forall|i: u64| i < 64 implies #[trigger] bit_set(result.param_mutations, i) == (bit_set(m, i) || i == j) by {
            lemma_set_bit(m, j, i);
        }
    }
}

/// The position of the first parameter called `name`.
fn position(names: &Vec<String>, name: &str) -> (r: Option<usize>)
    ensures
        r matches Some(k) ==> k < names@.len() && names@[k as int]@ == name@ && forall|j: int|
            0 <= j < k ==> names@[j]@ != name@,
        r is None ==> forall|j: int| 0 <= j < names@.len() ==> names@[j]@ != name@,
        match r {
            Some(k) => param_position(names@, name@) == Some(k as int),
            None => param_position(names@, name@) is None,
        },
{
    let mut k: usize = 0;
    assert(names@.subrange(0, 0) =~= Seq::<String>::empty());
    while k < names.len()
        invariant
            k <= names@.len(),
            forall|j: int| 0 <= j < k ==> names@[j]@ != name@,
            param_position(names@.subrange(0, k as int), name@) is None,
        decreases names@.len() - k,
    {
        assert(names@.subrange(0, k as int + 1).drop_last() =~= names@.subrange(0, k as int));
        if str_equal(names[k].as_str(), name) {
            proof {
                lemma_position_later(names@, name@, k as int + 1, k as int);
            }
            return Some(k);
        }
        k = k + 1;
    }
    assert(names@.subrange(0, names@.len() as int) =~= names@);
    None
}

/// `p.field: value` or `this.field: value`.
fn check_property_assignment(ast: &Ast, node_idx: usize, scan: &MutationScan, result: &mut MutationResult)
    requires
        mask_within(old(result).param_mutations, scan.param_names@.len()),
    ensures
        mask_within(final(result).param_mutations, scan.param_names@.len()),
        mask_grows(old(result).param_mutations, final(result).param_mutations),
        old(result).mutates_this ==> final(result).mutates_this,
        marks_exactly(*old(result), *final(result), |t: Option<int>| assignment_mutates(ast, *scan, node_idx, t)),
{
    let lhs = match ast.first_child_of(node_idx) {
        Some(l) => l,
        None => {
            return;
        },
    };
    let receiver = match ast.first_child_of(lhs) {
        Some(r) => r,
        None => {
            return;
        },
    };
    match ast.node_type_at(receiver) {
        Some(NodeType::This) => {
            result.mutates_this = true;
        },
        Some(NodeType::Identifier) => {
            match ast.node_text(receiver) {
                Some(name) => match position(&scan.param_names, name) {
                    Some(idx) => {
                        if idx < 64 {
                            mark(result, idx, scan.param_names.len());
                        }
                    },
                    None => {},
                },
                None => {},
            }
        },
        _ => {},
    }
}

/// Whether a method of that name mutates `this`: for a struct type the
/// entry of that type decides; otherwise any method of that name that
/// mutates `this` counts.
fn method_mutates(scan: &MutationScan, registry: &TypeRegistry, param_type: TypeId, method: &str) -> (r: bool)
    ensures
        r == method_flag(
            scan.method_flags@,
            param_type.0 < registry@.len() && registry@[param_type.0 as int] is Struct,
            param_type,
            method@,
        ),
{
    let is_struct = param_type.0 < registry.len() && match registry.resolve(param_type) {
        Type::Struct(_) => true,
        _ => false,
    };
    let mut found = false;
    let mut k: usize = 0;
    while k < scan.method_flags.len()
        invariant
            k <= scan.method_flags@.len(),
            is_struct == (param_type.0 < registry@.len() && registry@[param_type.0 as int] is Struct),
            found == method_flag(scan.method_flags@.subrange(0, k as int), is_struct, param_type, method@),
        decreases scan.method_flags@.len() - k,
    {
        assert(scan.method_flags@.subrange(0, k as int + 1).drop_last() =~= scan.method_flags@.subrange(0, k as int));
        let entry = &scan.method_flags[k];
        if str_equal(entry.1.as_str(), method) {
            if is_struct {
                if entry.0 == param_type {
                    found = entry.2;
                }
            } else if entry.2 {
                found = true;
            }
        }
        k = k + 1;
    }
    assert(scan.method_flags@.subrange(0, scan.method_flags@.len() as int) =~= scan.method_flags@);
    found
}

/// `p.method(..)` where the method mutates `this`.
fn check_method_call(
    ast: &Ast,
    registry: &TypeRegistry,
    node_idx: usize,
    scan: &MutationScan,
    result: &mut MutationResult,
)
    requires
        mask_within(old(result).param_mutations, scan.param_names@.len()),
    ensures
        mask_within(final(result).param_mutations, scan.param_names@.len()),
        mask_grows(old(result).param_mutations, final(result).param_mutations),
        final(result).mutates_this == old(result).mutates_this,
        marks_exactly(*old(result), *final(result), |t: Option<int>| method_call_mutates(ast, registry@, *scan, node_idx, t)),
{
    let receiver = match ast.first_child_of(node_idx) {
        Some(r) => r,
        None => {
            return;
        },
    };
    if ast.node_type_at(receiver) != Some(NodeType::Identifier) {
        return;
    }
    let receiver_name = match ast.node_text(receiver) {
        Some(n) => n,
        None => {
            return;
        },
    };
    let idx = match position(&scan.param_names, receiver_name) {
        Some(i) => i,
        None => {
            return;
        },
    };
    if idx >= 64 {
        return;
    }
    let method_idx = match ast.next_sibling_of(receiver) {
        Some(m) => m,
        None => {
            return;
        },
    };
    let method = match ast.node_text(method_idx) {
        Some(m) => m,
        None => {
            return;
        },
    };
    if idx < scan.param_types.len() && method_mutates(scan, registry, scan.param_types[idx], method) {
        mark(result, idx, scan.param_names.len());
    }
}

/// The mask of the function called `name`, if it was analyzed already.
fn callee_mask(scan: &MutationScan, name: &str) -> (r: Option<u64>)
    ensures
        r == callee_mask_of(*scan, name@),
{
    let mut node: Option<usize> = None;
    let mut k: usize = 0;
    while k < scan.nodes_by_name.len()
        invariant
            k <= scan.nodes_by_name@.len(),
            node == last_node_named(scan.nodes_by_name@.subrange(0, k as int), name@),
        decreases scan.nodes_by_name@.len() - k,
    {
        assert(scan.nodes_by_name@.subrange(0, k as int + 1).drop_last() =~= scan.nodes_by_name@.subrange(0, k as int));
        if str_equal(scan.nodes_by_name[k].0.as_str(), name) {
            node = Some(scan.nodes_by_name[k].1);
        }
        k = k + 1;
    }
    assert(scan.nodes_by_name@.subrange(0, scan.nodes_by_name@.len() as int) =~= scan.nodes_by_name@);
    let node = match node {
        Some(n) => n,
        None => {
            return None;
        },
    };
    let mut mask: Option<u64> = None;
    let mut k: usize = 0;
    while k < scan.function_masks.len()
        invariant
            k <= scan.function_masks@.len(),
            mask == last_mask(scan.function_masks@.subrange(0, k as int), node),
        decreases scan.function_masks@.len() - k,
    {
        assert(scan.function_masks@.subrange(0, k as int + 1).drop_last() =~= scan.function_masks@.subrange(0, k as int));
        if scan.function_masks[k].0 == node {
            mask = Some(scan.function_masks[k].1);
        }
        k = k + 1;
    }
    assert(scan.function_masks@.subrange(0, scan.function_masks@.len() as int) =~= scan.function_masks@);
    mask
}

/// `f(.., p, ..)` where `f` mutates the argument at p's position.
fn check_function_call(ast: &Ast, node_idx: usize, scan: &MutationScan, result: &mut MutationResult)
    requires
        mask_within(old(result).param_mutations, scan.param_names@.len()),
    ensures
        mask_within(final(result).param_mutations, scan.param_names@.len()),
        mask_grows(old(result).param_mutations, final(result).param_mutations),
        final(result).mutates_this == old(result).mutates_this,
        marks_exactly(*old(result), *final(result), |t: Option<int>| call_mutates(ast, *scan, node_idx, t)),
{
    let name_idx = match ast.first_child_of(node_idx) {
        Some(n) => n,
        None => {
            return;
        },
    };
    let name = match ast.node_text(name_idx) {
        Some(n) => n,
        None => {
            return;
        },
    };
    let callee = match callee_mask(scan, name) {
        Some(m) => m,
        None => {
            return;
        },
    };
    if callee == 0 {
        return;
    }
    let args_idx = match ast.next_sibling_of(name_idx) {
        Some(a) => a,
        None => {
            return;
        },
    };
    let args = ast.children(args_idx);
    let mut pos: usize = 0;
    while pos < args.len() && pos < 64
        invariant
            pos <= args@.len(),
            pos <= 64,
            args@ == ast.child_list(args_idx),
            mask_within(result.param_mutations, scan.param_names@.len()),
            mask_grows(old(result).param_mutations, result.param_mutations),
            result.mutates_this == old(result).mutates_this,
            forall|i: u64|
                i < 64 ==> #[trigger] bit_set(result.param_mutations, i) == (bit_set(old(result).param_mutations, i)
                    || passes_param(ast, *scan, callee, args@, pos as int, i as int)),
        decreases args@.len() - pos,
    {
        let ghost before = result.param_mutations;
        let bit = (callee >> (pos as u64)) & 1u64;
        if bit == 1u64 {
            let arg = args[pos];
            if ast.node_type_at(arg) == Some(NodeType::Identifier) {
                match ast.node_text(arg) {
                    Some(arg_name) => match position(&scan.param_names, arg_name) {
                        Some(idx) => {
                            if idx < 64 {
                                mark(result, idx, scan.param_names.len());
                            }
                        },
                        None => {},
                    },
                    None => {},
                }
            }
        }
        proof {
            assert(bit_set(callee, pos as u64) == (bit == 1u64));
        }
        pos = pos + 1;
    }
    proof {
        lemma_passes_stop(ast, *scan, callee, args@, pos as int);
    }
}

/// Walks a subtree for mutations, not entering nested function
/// declarations or struct methods (they are analyzed on their own).
fn walk_node(
    ast: &Ast,
    registry: &TypeRegistry,
    node_idx: usize,
    scan: &MutationScan,
    result: &mut MutationResult,
    fuel: usize,
)
    requires
        mask_within(old(result).param_mutations, scan.param_names@.len()),
    ensures
        mask_within(final(result).param_mutations, scan.param_names@.len()),
        mask_grows(old(result).param_mutations, final(result).param_mutations),
        old(result).mutates_this ==> final(result).mutates_this,
        marks_exactly(
            *old(result),
            *final(result),
            |t: Option<int>| subtree_mutates(ast, registry@, *scan, node_idx, fuel as nat, t),
        ),
    decreases fuel,
{
    if fuel == 0 {
        return;
    }
    match ast.node_type_at(node_idx) {
        None => {
            return;
        },
        Some(NodeType::FunctionDecl) => {
            return;
        },
        Some(NodeType::PropertyAssignment) => check_property_assignment(ast, node_idx, scan, result),
        Some(NodeType::MethodCall) => check_method_call(ast, registry, node_idx, scan, result),
        Some(NodeType::FunctionCall) => check_function_call(ast, node_idx, scan, result),
        _ => {},
    }
    let ghost r0 = *old(result);
    let ghost r1 = *result;
    let children = ast.children(node_idx);
    let mut k: usize = 0;
    assert(children@.subrange(0, 0) =~= Seq::<usize>::empty());
    while k < children.len()
        invariant
            fuel > 0,
            children@ == ast.child_list(node_idx),
            k <= children@.len(),
            mask_within(result.param_mutations, scan.param_names@.len()),
            mask_grows(old(result).param_mutations, result.param_mutations),
            old(result).mutates_this ==> result.mutates_this,
            marks_exactly(
                r1,
                *result,
                |t: Option<int>| children_mutate(ast, registry@, *scan, children@.subrange(0, k as int), (fuel - 1) as nat, t),
            ),
        decreases children@.len() - k,
    {
        assert(children@.subrange(0, k as int + 1).drop_last() =~= children@.subrange(0, k as int));
        assert(children@.subrange(0, k as int + 1).last() == children@[k as int]);
        walk_node(ast, registry, children[k], scan, result, fuel - 1);
        k = k + 1;
    }
    assert(children@.subrange(0, children@.len() as int) =~= children@);
}

/// The mutations of the body `body_idx` of a function with the parameters
/// of `scan`: only bits of declared parameters are set.
pub fn compute_param_mutations(ast: &Ast, registry: &TypeRegistry, body_idx: usize, scan: &MutationScan) -> (r:
    MutationResult)
    ensures
        mask_within(r.param_mutations, scan.param_names@.len()),
        forall|i: u64|
            i < 64 ==> #[trigger] bit_set(r.param_mutations, i) == subtree_mutates(
                ast,
                registry@,
                *scan,
                body_idx,
                ast.nodes@.len(),
                Some(i as int),
            ),
        r.mutates_this == subtree_mutates(ast, registry@, *scan, body_idx, ast.nodes@.len(), None),
{
    let mut result = MutationResult { param_mutations: 0, mutates_this: false };
    proof {
        assert forall|i: u64| i < 64 implies !#[trigger] bit_set(0u64, i) by {
            assert((0u64 >> i) & 1u64 == 0u64) by (bit_vector);
        }
    }
    walk_node(ast, registry, body_idx, scan, &mut result, ast.nodes.len());
    result
}

fn copy_strings(v: &Vec<String>) -> (r: Vec<String>)
    ensures
        r@.len() == v@.len(),
        forall|k: int| 0 <= k < v@.len() ==> (#[trigger] r@[k])@ == v@[k]@,
{
    let mut out: Vec<String> = Vec::new();
    let mut i: usize = 0;
    while i < v.len()
        invariant
            i <= v@.len(),
            out@.len() == i,
            forall|k: int| 0 <= k < i ==> (#[trigger] out@[k])@ == v@[k]@,
        decreases v@.len() - i,
    {
        out.push(v[i].clone());
        i = i + 1;
    }
    out
}

/// The result of analysis with the solved types: the tree and the mask of
/// mutated parameters of each function, by declaration node.
pub struct AnalysisOutput {
    pub ast: Ast,
    pub function_mutations: HashMap<usize, u64>,
}

impl SemanticAnalyzer {
    /// Computes the mutated parameters of every recorded function, in the
    /// order the functions were met; a call can only see the masks of the
    /// functions before it.
    pub fn compute_all_mutations(&mut self)
        requires
            old(self).wf(),
        ensures
            final(self).grows(&*old(self)),
            final(self).errors == old(self).errors,
            final(self).function_mutations@.len() == old(self).function_infos@.len(),
            forall|k: int|
                0 <= k < final(self).function_mutations@.len() ==> (#[trigger] final(self).function_mutations@[k]).0
                    == old(self).function_infos@[k].node && mask_within(
                    final(self).function_mutations@[k].1,
                    old(self).function_infos@[k].param_names@.len(),
                ),
            forall|k: int|
                0 <= k < final(self).function_mutations@.len() ==> #[trigger] mask_justified(
                    &*old(self),
                    k,
                    final(self).function_mutations@,
                ),
    {
        let mut nodes_by_name: Vec<(String, usize)> = Vec::new();
        let mut k: usize = 0;
        while k < self.function_infos.len()
            invariant
                k <= self.function_infos@.len(),
                nodes_by_name@.len() == k,
                forall|j: int| 0 <= j < k ==> (#[trigger] nodes_by_name@[j]).0@ == self.function_infos@[j].name@
                    && nodes_by_name@[j].1 == self.function_infos@[j].node,
            decreases self.function_infos@.len() - k,
        {
            nodes_by_name.push((self.function_infos[k].name.clone(), self.function_infos[k].node));
            k = k + 1;
        }
        let mut scan = MutationScan {
            param_names: Vec::new(),
            param_types: Vec::new(),
            function_masks: Vec::new(),
            nodes_by_name,
            method_flags: Vec::new(),
        };
        let mut k: usize = 0;
        while k < self.function_infos.len()
            invariant
                self.wf(),
                self == old(self),
                k <= self.function_infos@.len(),
                scan.function_masks@.len() == k,
                forall|j: int|
                    0 <= j < k ==> (#[trigger] scan.function_masks@[j]).0 == self.function_infos@[j].node && mask_within(
                        scan.function_masks@[j].1,
                        self.function_infos@[j].param_names@.len(),
                    ),
                scan.nodes_by_name@.len() == self.function_infos@.len(),
                forall|j: int| 0 <= j < self.function_infos@.len() ==> (#[trigger] scan.nodes_by_name@[j]).0@
                    == self.function_infos@[j].name@ && scan.nodes_by_name@[j].1 == self.function_infos@[j].node,
                forall|j: int| 0 <= j < k ==> #[trigger] mask_justified(&*old(self), j, scan.function_masks@),
            decreases self.function_infos@.len() - k,
        {
            let info = &self.function_infos[k];
            let mut types: Vec<TypeId> = Vec::new();
            let mut j: usize = 0;
            while j < info.param_type_ids.len()
                invariant
                    self.wf(),
                    j <= info.param_type_ids@.len(),
                    types@.len() == j,
                    forall|q: int| 0 <= q < j ==> #[trigger] types@[q] == applied_id(
                        self.substitution@,
                        self.type_registry@,
                        info.param_type_ids@[q],
                    ),
                decreases info.param_type_ids@.len() - j,
            {
                let t = info.param_type_ids[j];
                if t.0 < self.type_registry.len() {
                    types.push(self.resolve_type(t));
                } else {
                    types.push(t);
                }
                j = j + 1;
            }
            scan.param_names = copy_strings(&info.param_names);
            scan.param_types = types;
            let result = match info.body_idx {
                Some(b) => compute_param_mutations(&self.ast, &self.type_registry, b, &scan),
                None => MutationResult { param_mutations: 0, mutates_this: false },
            };
            proof {
                if info.body_idx is None {
                    assert forall|i: u64| info.param_names@.len() <= i < 64 implies !#[trigger] bit_set(0u64, i) by {
                        assert((0u64 >> i) & 1u64 == 0u64) by (bit_vector);
                    }
                }
            }
            let ghost masks0 = scan.function_masks@;
            proof {
                assert(masks0.push((info.node, result.param_mutations)).subrange(0, k as int) =~= masks0);
                assert(scan_for(&*old(self), k as int, scan, masks0.push((info.node, result.param_mutations))));
            }
            scan.function_masks.push((info.node, result.param_mutations));
            proof {
                assert forall|j: int| 0 <= j < k + 1 implies #[trigger] mask_justified(&*old(self), j, scan.function_masks@) by {
                    if j < k {
                        assert(mask_justified(&*old(self), j, masks0));
                        let sc = choose|sc: MutationScan| #[trigger] scan_for(&*old(self), j, sc, masks0) && mask_computed(&*old(self), j, sc, masks0[j].1);
                        assert(masks0.subrange(0, j) =~= scan.function_masks@.subrange(0, j));
                        assert(scan.function_masks@[j] == masks0[j]);
                        assert(scan_for(&*old(self), j, sc, scan.function_masks@));
                    }
                }
            }
            match info.struct_context {
                Some(t) => scan.method_flags.push((t, info.name.clone(), result.mutates_this)),
                None => {},
            }
            k = k + 1;
        }
        self.function_mutations = scan.function_masks;
    }

    /// Analyzes the tree as [`SemanticAnalyzer::analyze`] does and, when
    /// there is no error, also returns the mutated parameters of each
    /// function.
    pub fn analyze_with_types(self) -> (r: Result<AnalysisOutput, Vec<SemanticError>>)
        requires
            self.wf(),
        ensures
            r matches Ok(out) ==> out.ast == self.ast,
            r matches Err(es) ==> es@.len() > 0,
    {
        let mut s = self;
        s.run_analysis();
        if s.errors.len() > 0 {
            return Err(s.errors);
        }
        s.compute_all_mutations();
        let mut map: HashMap<usize, u64> = HashMap::new();
        let mut k: usize = 0;
        while k < s.function_mutations.len()
            invariant
                k <= s.function_mutations@.len(),
            decreases s.function_mutations@.len() - k,
        {
            map.insert(s.function_mutations[k].0, s.function_mutations[k].1);
            k = k + 1;
        }
        Ok(AnalysisOutput { ast: s.ast, function_mutations: map })
    }
}

/// The mask of function `k` among `masks` is what scanning its body gives,
/// with a scan as `scan_for` describes.
pub open spec fn mask_justified(a: &SemanticAnalyzer, k: int, masks: Seq<(usize, u64)>) -> bool {
    exists|sc: MutationScan| #[trigger] scan_for(a, k, sc, masks) && mask_computed(a, k, sc, masks[k].1)
}

/// A type id with the substitution applied, when it is registered.
pub open spec fn applied_id(m: Map<super::types::TypeVarId, TypeId>, reg: Seq<TypeView>, t: TypeId) -> TypeId {
    if t.0 < reg.len() {
        super::types::resolved(m, reg, t)
    } else {
        t
    }
}

/// `sc` is the scan that function `k` of analyzer `a` is examined with,
/// given the masks `masks` of all functions: the masks of the functions
/// before it, its parameter names, its resolved parameter types, and the
/// declaration node of every function by name (what `this` mutation each
/// method showed is not pinned here).
pub open spec fn scan_for(a: &SemanticAnalyzer, k: int, sc: MutationScan, masks: Seq<(usize, u64)>) -> bool {
    let info = a.function_infos@[k];
    &&& 0 <= k < a.function_infos@.len()
    &&& sc.function_masks@ == masks.subrange(0, k)
    &&& sc.param_names@.len() == info.param_names@.len()
    &&& (forall|j: int| 0 <= j < info.param_names@.len() ==> (#[trigger] sc.param_names@[j])@ == info.param_names@[j]@)
    &&& sc.param_types@.len() == info.param_type_ids@.len()
    &&& (forall|j: int|
        0 <= j < info.param_type_ids@.len() ==> #[trigger] sc.param_types@[j] == applied_id(
            a.substitution@,
            a.type_registry@,
            info.param_type_ids@[j],
        ))
    &&& sc.nodes_by_name@.len() == a.function_infos@.len()
    &&& (forall|j: int|
        0 <= j < a.function_infos@.len() ==> (#[trigger] sc.nodes_by_name@[j]).0@ == a.function_infos@[j].name@
            && sc.nodes_by_name@[j].1 == a.function_infos@[j].node)
}

/// `mask` is what scanning the body of function `k` with `sc` gives: bit
/// `i` is set exactly when the body mutates parameter `i`; no body gives 0.
pub open spec fn mask_computed(a: &SemanticAnalyzer, k: int, sc: MutationScan, mask: u64) -> bool {
    match a.function_infos@[k].body_idx {
        Some(b) => forall|i: u64| i < 64 ==> #[trigger] bit_set(mask, i) == subtree_mutates(
            &a.ast,
            a.type_registry@,
            sc,
            b,
            a.ast.nodes@.len(),
            Some(i as int),
        ),
        None => mask == 0,
    }
}

/// The first position of `name` among the parameter names.
pub open spec fn param_position(names: Seq<String>, name: Seq<char>) -> Option<int>
    decreases names.len(),
{
    if names.len() == 0 {
        None
    } else {
        match param_position(names.drop_last(), name) {
            Some(k) => Some(k),
            None => if names.last()@ == name {
                Some(names.len() - 1)
            } else {
                None
            },
        }
    }
}

proof fn lemma_position_later(names: Seq<String>, name: Seq<char>, n: int, k: int)
    requires
        0 < n <= names.len(),
        param_position(names.subrange(0, n), name) == Some(k),
    ensures
        param_position(names, name) == Some(k),
    decreases names.len() - n,
{
    if n < names.len() {
        assert(names.subrange(0, n + 1).drop_last() =~= names.subrange(0, n));
        lemma_position_later(names, name, n + 1, k);
    } else {
        assert(names.subrange(0, n) =~= names);
    }
}

/// Whether a method called `m` mutates `this`, by the flags recorded so
/// far (later entries win): for a struct parameter type, the entry of that
/// type; otherwise any entry of that name.
pub open spec fn method_flag(flags: Seq<(TypeId, String, bool)>, is_struct: bool, pt: TypeId, m: Seq<char>) -> bool
    decreases flags.len(),
{
    if flags.len() == 0 {
        false
    } else {
        let prev = method_flag(flags.drop_last(), is_struct, pt, m);
        let e = flags.last();
        if e.1@ == m {
            if is_struct {
                if e.0 == pt {
                    e.2
                } else {
                    prev
                }
            } else {
                prev || e.2
            }
        } else {
            prev
        }
    }
}

/// The declaration node recorded last under `name`.
pub open spec fn last_node_named(v: Seq<(String, usize)>, name: Seq<char>) -> Option<usize>
    decreases v.len(),
{
    if v.len() == 0 {
        None
    } else if v.last().0@ == name {
        Some(v.last().1)
    } else {
        last_node_named(v.drop_last(), name)
    }
}

/// The mask recorded last for declaration `node`.
pub open spec fn last_mask(v: Seq<(usize, u64)>, node: usize) -> Option<u64>
    decreases v.len(),
{
    if v.len() == 0 {
        None
    } else if v.last().0 == node {
        Some(v.last().1)
    } else {
        last_mask(v.drop_last(), node)
    }
}

/// The mask of the function called `name`, if it was analyzed already.
pub open spec fn callee_mask_of(scan: MutationScan, name: Seq<char>) -> Option<u64> {
    match last_node_named(scan.nodes_by_name@, name) {
        Some(n) => last_mask(scan.function_masks@, n),
        None => None,
    }
}

/// The parameter named by identifier node `n`, if it is one of the first 64.
pub open spec fn named_param(ast: &Ast, scan: MutationScan, n: usize) -> Option<int> {
    let nodes = ast.nodes@;
    if n < nodes.len() && nodes[n as int].node_type == NodeType::Identifier && nodes[n as int].token is Some {
        match param_position(scan.param_names@, nodes[n as int].token->0.text@) {
            Some(k) => if k < 64 {
                Some(k)
            } else {
                None
            },
            None => None,
        }
    } else {
        None
    }
}

/// What the assignment `r.field: value` at node `node` mutates: `this`
/// (target `None`) when `r` is `this`, the parameter `r` names otherwise.
pub open spec fn assignment_mutates(ast: &Ast, scan: MutationScan, node: usize, t: Option<int>) -> bool {
    let nodes = ast.nodes@;
    match (if node < nodes.len() { nodes[node as int].first_child } else { None }) {
        Some(lhs) => match (if lhs < nodes.len() { nodes[lhs as int].first_child } else { None }) {
            Some(r) => match t {
                None => r < nodes.len() && nodes[r as int].node_type == NodeType::This,
                Some(i) => named_param(ast, scan, r) == Some(i),
            },
            None => false,
        },
        None => false,
    }
}

/// What the method call `p.m(..)` at node `node` mutates: parameter `p`
/// when method `m` mutates `this`.
pub open spec fn method_call_mutates(ast: &Ast, reg: Seq<TypeView>, scan: MutationScan, node: usize, t: Option<int>) -> bool {
    let nodes = ast.nodes@;
    match t {
        None => false,
        Some(i) => match (if node < nodes.len() { nodes[node as int].first_child } else { None }) {
            Some(r) => named_param(ast, scan, r) == Some(i) && i < scan.param_types@.len() && match (
            if r < nodes.len() {
                nodes[r as int].next_sibling
            } else {
                None
            }) {
                Some(m) => m < nodes.len() && nodes[m as int].token is Some && method_flag(
                    scan.method_flags@,
                    scan.param_types@[i].0 < reg.len() && reg[scan.param_types@[i].0 as int] is Struct,
                    scan.param_types@[i],
                    nodes[m as int].token->0.text@,
                ),
                None => false,
            },
            None => false,
        },
    }
}

/// Whether, among the first `n` arguments `args` of a call of a function
/// with mutation mask `mask`, one at a mutated position is parameter `i`.
pub open spec fn passes_param(ast: &Ast, scan: MutationScan, mask: u64, args: Seq<usize>, n: int, i: int) -> bool
    decreases n,
{
    if n <= 0 {
        false
    } else {
        passes_param(ast, scan, mask, args, n - 1, i) || (n - 1 < 64 && n - 1 < args.len() && bit_set(
            mask,
            (n - 1) as u64,
        ) && named_param(ast, scan, args[n - 1]) == Some(i))
    }
}

/// Law: among the first `n` arguments `args` of a call, parameter `i` is
/// passed on to be mutated exactly when some argument at a position `p`
/// whose bit is set in the callee's mask `mask` is an identifier naming
/// parameter `i`.
pub proof fn law_passes_param_by_position(ast: &Ast, scan: MutationScan, mask: u64, args: Seq<usize>, n: int, i: int)
    ensures
        passes_param(ast, scan, mask, args, n, i) <==> exists|p: int|
            0 <= p < n && p < 64 && p < args.len() && #[trigger] bit_set(mask, p as u64) && named_param(ast, scan, args[p])
                == Some(i),
    decreases n,
{
    if n > 0 {
        law_passes_param_by_position(ast, scan, mask, args, n - 1, i);
        if passes_param(ast, scan, mask, args, n, i) {
            if passes_param(ast, scan, mask, args, n - 1, i) {
                let p = choose|p: int|
                    0 <= p < n - 1 && p < 64 && p < args.len() && #[trigger] bit_set(mask, p as u64) && named_param(ast, scan, args[p])
                        == Some(i);
                assert(0 <= p < n);
            } else {
                let p = n - 1;
                assert(bit_set(mask, p as u64));
            }
        }
        if exists|p: int|
            0 <= p < n && p < 64 && p < args.len() && #[trigger] bit_set(mask, p as u64) && named_param(ast, scan, args[p])
                == Some(i) {
            let p = choose|p: int|
                0 <= p < n && p < 64 && p < args.len() && #[trigger] bit_set(mask, p as u64) && named_param(ast, scan, args[p])
                    == Some(i);
            if p < n - 1 {
                assert(passes_param(ast, scan, mask, args, n - 1, i));
            }
        }
    }
}

/// Law: the call `f(..)` at node `node` mutates parameter `i` exactly when
/// `f` was analyzed with a mask other than zero and one of the first 64
/// arguments, at a position whose bit is set in that mask, is an
/// identifier naming parameter `i`.
pub proof fn law_call_mutates_by_position(ast: &Ast, scan: MutationScan, node: usize, i: int)
    ensures
        call_mutates(ast, scan, node, Some(i)) <==> (node < ast.nodes@.len() && ast.nodes@[node as int].first_child is Some && {
            let f = ast.nodes@[node as int].first_child->0;
            &&& f < ast.nodes@.len() && ast.nodes@[f as int].token is Some
            &&& callee_mask_of(scan, ast.nodes@[f as int].token->0.text@) is Some
            &&& callee_mask_of(scan, ast.nodes@[f as int].token->0.text@)->0 != 0
            &&& ast.nodes@[f as int].next_sibling is Some
            &&& exists|p: int|
                0 <= p < 64 && p < ast.child_list(ast.nodes@[f as int].next_sibling->0).len() && #[trigger] bit_set(
                    callee_mask_of(scan, ast.nodes@[f as int].token->0.text@)->0,
                    p as u64,
                ) && named_param(ast, scan, ast.child_list(ast.nodes@[f as int].next_sibling->0)[p]) == Some(i)
        }),
{
    let nodes = ast.nodes@;
    if node < nodes.len() {
        if let Some(f) = nodes[node as int].first_child {
            if f < nodes.len() && nodes[f as int].token is Some {
                if let Some(mask) = callee_mask_of(scan, nodes[f as int].token->0.text@) {
                    if let Some(al) = nodes[f as int].next_sibling {
                        law_passes_param_by_position(ast, scan, mask, ast.child_list(al), 64, i);
                        if call_mutates(ast, scan, node, Some(i)) {
                            let p = choose|p: int|
                                0 <= p < 64 && p < 64 && p < ast.child_list(al).len() && #[trigger] bit_set(mask, p as u64)
                                    && named_param(ast, scan, ast.child_list(al)[p]) == Some(i);
                            assert(bit_set(mask, p as u64));
                        }
                    }
                }
            }
        }
    }
}

/// What the call `f(..)` at node `node` mutates: each parameter passed at
/// a position that `f` mutates, when `f` was analyzed already.
pub open spec fn call_mutates(ast: &Ast, scan: MutationScan, node: usize, t: Option<int>) -> bool {
    let nodes = ast.nodes@;
    match t {
        None => false,
        Some(i) => match (if node < nodes.len() { nodes[node as int].first_child } else { None }) {
            Some(f) => f < nodes.len() && nodes[f as int].token is Some && match callee_mask_of(
                scan,
                nodes[f as int].token->0.text@,
            ) {
                Some(mask) => mask != 0 && match (if f < nodes.len() { nodes[f as int].next_sibling } else { None }) {
                    Some(al) => passes_param(ast, scan, mask, ast.child_list(al), 64, i),
                    None => false,
                },
                None => false,
            },
            None => false,
        },
    }
}

/// What node `node` itself mutates.
pub open spec fn node_mutates(ast: &Ast, reg: Seq<TypeView>, scan: MutationScan, node: usize, t: Option<int>) -> bool {
    let nodes = ast.nodes@;
    if node >= nodes.len() {
        false
    } else if nodes[node as int].node_type == NodeType::PropertyAssignment {
        assignment_mutates(ast, scan, node, t)
    } else if nodes[node as int].node_type == NodeType::MethodCall {
        method_call_mutates(ast, reg, scan, node, t)
    } else if nodes[node as int].node_type == NodeType::FunctionCall {
        call_mutates(ast, scan, node, t)
    } else {
        false
    }
}

/// What the subtree at `node` mutates, looking `fuel` levels deep and not
/// into nested function declarations or struct methods.
pub open spec fn subtree_mutates(ast: &Ast, reg: Seq<TypeView>, scan: MutationScan, node: usize, fuel: nat, t: Option<int>) -> bool
    decreases fuel, 0nat,
{
    let nodes = ast.nodes@;
    if fuel == 0 || node >= nodes.len() || nodes[node as int].node_type == NodeType::FunctionDecl {
        false
    } else {
        node_mutates(ast, reg, scan, node, t) || children_mutate(ast, reg, scan, ast.child_list(node), (fuel - 1) as nat, t)
    }
}

/// What the subtrees at nodes `cs` mutate.
pub open spec fn children_mutate(ast: &Ast, reg: Seq<TypeView>, scan: MutationScan, cs: Seq<usize>, fuel: nat, t: Option<int>) -> bool
    decreases fuel, cs.len() + 1,
{
    if cs.len() == 0 {
        false
    } else {
        children_mutate(ast, reg, scan, cs.drop_last(), fuel, t) || subtree_mutates(ast, reg, scan, cs.last(), fuel, t)
    }
}

/// From `a` to `b` exactly what `p` says is mutated was added: bit `i` is
/// set when it was or `p(Some(i))`; `this` is mutated when it was or `p(None)`.
pub open spec fn marks_exactly(a: MutationResult, b: MutationResult, p: spec_fn(Option<int>) -> bool) -> bool {
    &&& forall|i: u64| i < 64 ==> #[trigger] bit_set(b.param_mutations, i) == (bit_set(a.param_mutations, i) || p(Some(i as int)))
    &&& b.mutates_this == (a.mutates_this || p(None))
}

proof fn lemma_passes_stop(ast: &Ast, scan: MutationScan, mask: u64, args: Seq<usize>, n: int)
    requires
        n == 64 || (n == args.len() && n <= 64),
    ensures
        forall|i: int| passes_param(ast, scan, mask, args, 64, i) == #[trigger] passes_param(ast, scan, mask, args, n, i),
    decreases 64 - n,
{
    if n < 64 {
        lemma_passes_stop_step(ast, scan, mask, args, n);
    }
}

proof fn lemma_passes_stop_step(ast: &Ast, scan: MutationScan, mask: u64, args: Seq<usize>, n: int)
    requires
        args.len() <= n <= 64,
    ensures
        forall|i: int| passes_param(ast, scan, mask, args, 64, i) == #[trigger] passes_param(ast, scan, mask, args, n, i),
    decreases 64 - n,
{
    if n < 64 {
        lemma_passes_stop_step(ast, scan, mask, args, n + 1);
        assert forall|i: int| passes_param(ast, scan, mask, args, n + 1, i) == #[trigger] passes_param(ast, scan, mask, args, n, i) by {
        }
    }
}

} // verus!
