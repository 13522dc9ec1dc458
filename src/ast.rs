//! Function bodies: an arena of expression nodes, where each node refers only
//! to nodes before it, and a list of statements over those nodes.

use vstd::prelude::*;
use crate::shader::{ShConst, ShVar};

verus! {

/// An expression node. Child references are indices of earlier nodes.
#[derive(Debug)]
pub enum SlNode {
    /// A literal, with its type name.
    Lit { text: String, ty: String },
    /// A reference to a parameter, a local, a shader variable or a constant.
    Ident { name: String },
    /// A member or swizzle access such as `pos.xy`.
    Field { base: usize, field: String },
    /// A call of a user function or an intrinsic.
    Call { name: String, args: Vec<usize> },
    /// An infix operation written as is, such as `+`.
    Binary { left: usize, op: String, right: usize },
    /// A matrix product, left operand first.
    MatMul { left: usize, right: usize },
}

pub enum SlNodeView {
    Lit { text: Seq<char>, ty: Seq<char> },
    Ident { name: Seq<char> },
    Field { base: usize, field: Seq<char> },
    Call { name: Seq<char>, args: Seq<usize> },
    Binary { left: usize, op: Seq<char>, right: usize },
    MatMul { left: usize, right: usize },
}

impl View for SlNode {
    type V = SlNodeView;

    open spec fn view(&self) -> SlNodeView {
        match self {
            SlNode::Lit { text, ty } => SlNodeView::Lit { text: text@, ty: ty@ },
            SlNode::Ident { name } => SlNodeView::Ident { name: name@ },
            SlNode::Field { base, field } => SlNodeView::Field { base: *base, field: field@ },
            SlNode::Call { name, args } => SlNodeView::Call { name: name@, args: args@ },
            SlNode::Binary { left, op, right } => SlNodeView::Binary { left: *left, op: op@, right: *right },
            SlNode::MatMul { left, right } => SlNodeView::MatMul { left: *left, right: *right },
        }
    }
}

/// A statement of a function body; `value` and `target` are node indices.
#[derive(Debug)]
pub enum SlStmt {
    Let { name: String, ty: String, value: usize },
    Assign { target: usize, value: usize },
    Return { value: usize },
    Eval { value: usize },
}

pub enum SlStmtView {
    Let { name: Seq<char>, ty: Seq<char>, value: usize },
    Assign { target: usize, value: usize },
    Return { value: usize },
    Eval { value: usize },
}

impl View for SlStmt {
    type V = SlStmtView;

    open spec fn view(&self) -> SlStmtView {
        match self {
            SlStmt::Let { name, ty, value } => SlStmtView::Let { name: name@, ty: ty@, value: *value },
            SlStmt::Assign { target, value } => SlStmtView::Assign { target: *target, value: *value },
            SlStmt::Return { value } => SlStmtView::Return { value: *value },
            SlStmt::Eval { value } => SlStmtView::Eval { value: *value },
        }
    }
}

/// A named, typed function parameter.
#[derive(Debug)]
pub struct ShFnArg {
    pub name: String,
    pub ty: String,
}

/// A user function.
#[derive(Debug)]
pub struct ShFn {
    pub name: String,
    pub args: Vec<ShFnArg>,
    pub ret: String,
    pub nodes: Vec<SlNode>,
    pub body: Vec<SlStmt>,
}

/// A backend-agnostic shader program: variables, constants and functions,
/// with entry points named `vertex` and `pixel`.
#[derive(Debug)]
pub struct Shader {
    pub name: String,
    pub vars: Vec<ShVar>,
    pub consts: Vec<ShConst>,
    pub fns: Vec<ShFn>,
    pub log: bool,
}

pub open spec fn node_children_before(n: SlNodeView, i: int) -> bool {
    match n {
        SlNodeView::Lit { .. } => true,
        SlNodeView::Ident { .. } => true,
        SlNodeView::Field { base, .. } => (base as int) < i,
        SlNodeView::Call { args, .. } => forall|k: int| 0 <= k < args.len() ==> (#[trigger] args[k] as int) < i,
        SlNodeView::Binary { left, right, .. } => (left as int) < i && (right as int) < i,
        SlNodeView::MatMul { left, right } => (left as int) < i && (right as int) < i,
    }
}

pub open spec fn stmt_refs_within(s: SlStmtView, n: int) -> bool {
    match s {
        SlStmtView::Let { value, .. } => (value as int) < n,
        SlStmtView::Assign { target, value } => (target as int) < n && (value as int) < n,
        SlStmtView::Return { value } => (value as int) < n,
        SlStmtView::Eval { value } => (value as int) < n,
    }
}

#[verifier::loop_isolation(false)]
fn children_before(n: &SlNode, i: usize) -> (r: bool)
    ensures
        r == node_children_before(n@, i as int),
{
    match n {
        SlNode::Lit { .. } => true,
        SlNode::Ident { .. } => true,
        SlNode::Field { base, .. } => *base < i,
        SlNode::Call { args, .. } => {
            let mut k: usize = 0;
            while k < args.len()
                invariant
                    k <= args@.len(),
                    forall|m: int| 0 <= m < k ==> (#[trigger] args@[m] as int) < i,
                decreases args@.len() - k,
            {
                if args[k] >= i {
                    proof {
                        match n@ {
                            SlNodeView::Call { args: a, .. } => {
                                assert(a == args@);
                                assert(!((a[k as int] as int) < i));
                            },
                            _ => {},
                        }
                    }
                    return false;
                }
                k += 1;
            }
            true
        },
        SlNode::Binary { left, right, .. } => *left < i && *right < i,
        SlNode::MatMul { left, right } => *left < i && *right < i,
    }
}

impl ShFn {
    /// Every node refers only to earlier nodes and every statement to existing ones.
    pub open spec fn wf(&self) -> bool {
        &&& forall|i: int| 0 <= i < self.nodes@.len() ==> node_children_before(#[trigger] self.nodes@[i]@, i)
        &&& forall|i: int| 0 <= i < self.body@.len() ==> stmt_refs_within(#[trigger] self.body@[i]@, self.nodes@.len() as int)
    }

    /// Checks `wf`.
    pub fn is_well_formed(&self) -> (r: bool)
        ensures
            r == self.wf(),
    {
        let mut i: usize = 0;
        while i < self.nodes.len()
            invariant
                i <= self.nodes@.len(),
                forall|j: int| 0 <= j < i ==> node_children_before(#[trigger] self.nodes@[j]@, j),
            decreases self.nodes@.len() - i,
        {
            let ok = children_before(&self.nodes[i], i);
            assert(ok == node_children_before(self.nodes@[i as int]@, i as int));
            if !ok {
                return false;
            }
            i += 1;
        }
        let n = self.nodes.len();
        let mut s: usize = 0;
        while s < self.body.len()
            invariant
                s <= self.body@.len(),
                n == self.nodes@.len(),
                forall|j: int| 0 <= j < self.nodes@.len() ==> node_children_before(#[trigger] self.nodes@[j]@, j),
                forall|j: int| 0 <= j < s ==> stmt_refs_within(#[trigger] self.body@[j]@, n as int),
            decreases self.body@.len() - s,
        {
            let ok = match &self.body[s] {
                SlStmt::Let { value, .. } => *value < n,
                SlStmt::Assign { target, value } => *target < n && *value < n,
                SlStmt::Return { value } => *value < n,
                SlStmt::Eval { value } => *value < n,
            };
            assert(ok == stmt_refs_within(self.body@[s as int]@, n as int));
            if !ok {
                return false;
            }
            s += 1;
        }
        true
    }
}

impl Shader {
    /// Every function is well formed.
    pub open spec fn wf(&self) -> bool {
        forall|i: int| 0 <= i < self.fns@.len() ==> (#[trigger] self.fns@[i]).wf()
    }

    /// Checks `wf`.
    pub fn is_well_formed(&self) -> (r: bool)
        ensures
            r == self.wf(),
    {
        let mut i: usize = 0;
        while i < self.fns.len()
            invariant
                i <= self.fns@.len(),
                forall|j: int| 0 <= j < i ==> (#[trigger] self.fns@[j]).wf(),
            decreases self.fns@.len() - i,
        {
            if !self.fns[i].is_well_formed() {
                return false;
            }
            i += 1;
        }
        true
    }
}

} // verus!
