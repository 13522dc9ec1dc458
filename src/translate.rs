//! Translation of user functions into HLSL, node by node.

use vstd::prelude::*;
use crate::ast::{ShFn, ShFnArg, Shader, SlNode, SlNodeView, SlStmt, SlStmtView, node_children_before, stmt_refs_within};
use crate::hlsl_emit::hlsl_type_of;
use crate::registry::Cx;
use crate::shader::{ShConst, ShVar, ShVarStore, ShVarView, SlErr, SlTarget, view_vars};
use crate::slcx::{MapCallResult, MapCallView, Sl, SlCx, all_inputs, auto_vary_step, call_map, has_name, lemma_step_keeps_unique, lemma_step_monotone, sl_texts, unique_names, var_access};
use crate::strs::{join, join_strings, lookup, strs, lemma_lookup_skip, lemma_lookup_end};
use crate::text::str_eq;

verus! {

/// What a node's translation may refer to.
pub struct TrEnv {
    pub target: SlTarget,
    pub shared: bool,
    pub call_prefix: Seq<char>,
    pub defargs_call: Seq<char>,
    pub scope: Seq<(Seq<char>, Seq<char>)>,
    pub vars: Seq<ShVarView>,
    pub consts: Seq<(Seq<char>, Seq<char>)>,
    pub fns: Seq<(Seq<char>, Seq<char>)>,
}

pub open spec fn arg_pairs(a: Seq<ShFnArg>) -> Seq<(Seq<char>, Seq<char>)> {
    a.map_values(|x: ShFnArg| (x.name@, x.ty@))
}

pub open spec fn const_pairs(c: Seq<ShConst>) -> Seq<(Seq<char>, Seq<char>)> {
    c.map_values(|x: ShConst| (x.name@, x.ty@))
}

pub open spec fn fn_pairs(f: Seq<ShFn>) -> Seq<(Seq<char>, Seq<char>)> {
    f.map_values(|x: ShFn| (x.name@, x.ret@))
}

pub open spec fn node_views(n: Seq<SlNode>) -> Seq<SlNodeView> {
    n.map_values(|x: SlNode| x@)
}

pub open spec fn stmt_views(s: Seq<SlStmt>) -> Seq<SlStmtView> {
    s.map_values(|x: SlStmt| x@)
}

/// The names and types that `let` statements declare, in order.
pub open spec fn lets(body: Seq<SlStmtView>) -> Seq<(Seq<char>, Seq<char>)>
    decreases body.len(),
{
    if body.len() == 0 {
        seq![]
    } else {
        match body.last() {
            SlStmtView::Let { name, ty, .. } => lets(body.drop_last()).push((name, ty)),
            _ => lets(body.drop_last()),
        }
    }
}

/// A function's parameters, then its `let` locals.
pub open spec fn fn_scope(f: &ShFn) -> Seq<(Seq<char>, Seq<char>)> {
    arg_pairs(f.args@) + lets(stmt_views(f.body@))
}

/// The first variable with this name.
pub open spec fn first_var(vs: Seq<ShVarView>, name: Seq<char>) -> Option<ShVarView>
    decreases vs.len(),
{
    if vs.len() == 0 {
        None
    } else if vs[0].name == name {
        Some(vs[0])
    } else {
        first_var(vs.drop_first(), name)
    }
}

/// The fixed parameters of a translation pass.
pub struct PassView {
    pub target: SlTarget,
    pub shared: bool,
    pub call_prefix: Seq<char>,
    pub defargs_fn: Seq<char>,
    pub defargs_call: Seq<char>,
}

pub open spec fn pass_of(cx: &SlCx) -> PassView {
    PassView {
        target: cx.target,
        shared: cx.shared,
        call_prefix: cx.call_prefix@,
        defargs_fn: cx.defargs_fn@,
        defargs_call: cx.defargs_call@,
    }
}

/// `e` reports node `n`: an unresolved name it reads, or a call it makes
/// that nothing defines.
pub open spec fn error_in_node(e: SlErr, n: SlNodeView) -> bool {
    match e {
        SlErr::UnresolvedVariable { name } => n matches SlNodeView::Ident { name: m } && m == name@,
        SlErr::UnknownIntrinsic { name } => n matches SlNodeView::Call { name: m, .. } && m == name@,
        _ => false,
    }
}

/// Node `k` is the first whose translation fails.
pub open spec fn first_failure(env: TrEnv, av0: Seq<ShVarView>, nodes: Seq<SlNodeView>, k: int) -> bool {
    &&& 0 <= k < nodes.len()
    &&& tr_nodes(env, av0, nodes.take(k)) is Some
    &&& tr_nodes(env, av0, nodes.take(k + 1)) is None
}

/// The environment of translating `f` of `sh` in a pass.
pub open spec fn env_for(p: PassView, sh: &Shader, f: &ShFn) -> TrEnv {
    TrEnv {
        target: p.target,
        shared: p.shared,
        call_prefix: p.call_prefix,
        defargs_call: p.defargs_call,
        scope: fn_scope(f),
        vars: view_vars(sh.vars@),
        consts: const_pairs(sh.consts@),
        fns: fn_pairs(sh.fns@),
    }
}

pub open spec fn env_of(cx: &SlCx, sh: &Shader, f: &ShFn) -> TrEnv {
    env_for(pass_of(cx), sh, f)
}

/// The shader type of a swizzle of this many components.
pub open spec fn swizzle_ty(n: nat) -> Seq<char> {
    if n == 1 {
        "float"@
    } else if n == 2 {
        "vec2"@
    } else if n == 3 {
        "vec3"@
    } else {
        "vec4"@
    }
}

/// Type names that are also constructors.
pub open spec fn is_type_ctor(name: Seq<char>) -> bool {
    name == "float"@ || name == "vec2"@ || name == "vec3"@ || name == "vec4"@ || name == "mat2"@
        || name == "mat3"@ || name == "mat4"@
}

/// Intrinsics that HLSL spells as the source does.
pub open spec fn is_builtin(name: Seq<char>) -> bool {
    name == "sin"@ || name == "cos"@ || name == "tan"@ || name == "abs"@ || name == "min"@ || name == "max"@
        || name == "clamp"@ || name == "dot"@ || name == "cross"@ || name == "length"@ || name == "distance"@
        || name == "normalize"@ || name == "pow"@ || name == "sqrt"@ || name == "exp"@ || name == "floor"@
        || name == "ceil"@ || name == "step"@ || name == "smoothstep"@ || name == "sign"@
}

/// The texts of the argument nodes.
pub open spec fn pick(texts: Seq<Seq<char>>, args: Seq<usize>) -> Seq<Seq<char>> {
    args.map_values(|a: usize| texts[a as int])
}

/// The leading fixed arguments, if any, then the others.
pub open spec fn with_lead(lead: Seq<char>, rest: Seq<Seq<char>>) -> Seq<Seq<char>> {
    if lead.len() == 0 {
        rest
    } else {
        seq![lead] + rest
    }
}

/// The type of the first argument; `float` without arguments.
pub open spec fn first_ty(tys: Seq<Seq<char>>, args: Seq<usize>) -> Seq<char> {
    if args.len() > 0 {
        tys[args[0] as int]
    } else {
        "float"@
    }
}

/// The translation of one node (text, type, promoted variables after it),
/// given the translations of the nodes before it; `None` on an error.
pub open spec fn tr_node(
    env: TrEnv,
    texts: Seq<Seq<char>>,
    tys: Seq<Seq<char>>,
    av: Seq<ShVarView>,
    node: SlNodeView,
) -> Option<(Seq<char>, Seq<char>, Seq<ShVarView>)> {
    match node {
        SlNodeView::Lit { text, ty } => Some((text, ty, av)),
        SlNodeView::Ident { name } => if lookup(env.scope, name) is Some {
            Some((name, lookup(env.scope, name)->Some_0, av))
        } else if first_var(env.vars, name) is Some {
            let v = first_var(env.vars, name)->Some_0;
            if env.shared && (v.store == ShVarStore::Geometry || v.store == ShVarStore::Instance) {
                None
            } else {
                Some((var_access(v, env.target), v.ty, auto_vary_step(av, v, env.target)))
            }
        } else if lookup(env.consts, name) is Some {
            Some((name, lookup(env.consts, name)->Some_0, av))
        } else {
            None
        },
        SlNodeView::Field { base, field } => Some((texts[base as int] + "."@ + field, swizzle_ty(field.len()), av)),
        SlNodeView::Call { name, args } => {
            let a = pick(texts, args);
            if lookup(env.fns, name) is Some {
                Some((env.call_prefix + name + "("@ + join(with_lead(env.defargs_call, a)) + ")"@,
                    lookup(env.fns, name)->Some_0, av))
            } else if (name == "sample2d"@ && a.len() < 2) || (name == "color"@ && a.len() < 1) {
                None
            } else {
                match call_map(name, a) {
                    MapCallView::Rewrite(s, t) => Some((s, t, av)),
                    MapCallView::Rename(n) => Some((n + "("@ + join(a) + ")"@, first_ty(tys, args), av)),
                    MapCallView::PassThrough => if is_type_ctor(name) {
                        Some((hlsl_type_of(name) + "("@ + join(a) + ")"@, name, av))
                    } else if is_builtin(name) {
                        Some((name + "("@ + join(a) + ")"@, first_ty(tys, args), av))
                    } else {
                        None
                    },
                }
            }
        },
        SlNodeView::Binary { left, op, right } => Some((
            "("@ + texts[left as int] + " "@ + op + " "@ + texts[right as int] + ")"@,
            if tys[left as int] == "float"@ { tys[right as int] } else { tys[left as int] },
            av,
        )),
        SlNodeView::MatMul { left, right } => Some((
            "mul("@ + texts[left as int] + ","@ + texts[right as int] + ")"@,
            tys[right as int],
            av,
        )),
    }
}

/// The translations of a list of nodes, in order, and the promoted variables after them.
pub open spec fn tr_nodes(env: TrEnv, av0: Seq<ShVarView>, nodes: Seq<SlNodeView>) -> Option<
    (Seq<Seq<char>>, Seq<Seq<char>>, Seq<ShVarView>),
>
    decreases nodes.len(),
{
    if nodes.len() == 0 {
        Some((seq![], seq![], av0))
    } else {
        match tr_nodes(env, av0, nodes.drop_last()) {
            None => None,
            Some(st) => match tr_node(env, st.0, st.1, st.2, nodes.last()) {
                None => None,
                Some(n) => Some((st.0.push(n.0), st.1.push(n.1), n.2)),
            },
        }
    }
}

/// One statement, indented and terminated.
pub open spec fn stmt_text(s: SlStmtView, texts: Seq<Seq<char>>) -> Seq<char> {
    match s {
        SlStmtView::Let { name, ty, value } => "  "@ + hlsl_type_of(ty) + " "@ + name + " = "@ + texts[value as int] + ";\n"@,
        SlStmtView::Assign { target, value } => "  "@ + texts[target as int] + " = "@ + texts[value as int] + ";\n"@,
        SlStmtView::Return { value } => "  return "@ + texts[value as int] + ";\n"@,
        SlStmtView::Eval { value } => "  "@ + texts[value as int] + ";\n"@,
    }
}

pub open spec fn stmts_text(body: Seq<SlStmtView>, texts: Seq<Seq<char>>) -> Seq<char>
    decreases body.len(),
{
    if body.len() == 0 {
        Seq::<char>::empty()
    } else {
        stmts_text(body.drop_last(), texts) + stmt_text(body.last(), texts)
    }
}

/// The parameter declarations of a function.
pub open spec fn arg_decls(args: Seq<ShFnArg>) -> Seq<Seq<char>> {
    args.map_values(|a: ShFnArg| hlsl_type_of(a.ty@) + " "@ + a.name@)
}

/// A translated function definition.
pub open spec fn fn_text_for(p: PassView, f: &ShFn, texts: Seq<Seq<char>>) -> Seq<char> {
    hlsl_type_of(f.ret@) + " "@ + p.call_prefix + f.name@ + "("@ + join(with_lead(p.defargs_fn, arg_decls(f.args@)))
        + "){\n"@ + stmts_text(stmt_views(f.body@), texts) + "}\n"@
}

pub open spec fn fn_text(cx: &SlCx, f: &ShFn, texts: Seq<Seq<char>>) -> Seq<char> {
    fn_text_for(pass_of(cx), f, texts)
}

/// The first argument or local with this name.
fn find_arg(v: &Vec<ShFnArg>, name: &str) -> (r: Option<usize>)
    ensures
        match r {
            Some(i) => i < v@.len() && lookup(arg_pairs(v@), name@) == Some(v@[i as int].ty@),
            None => lookup(arg_pairs(v@), name@) is None,
        },
{
    let ghost p = arg_pairs(v@);
    proof {
        lemma_lookup_end(p, name@);
    }
    let mut i: usize = 0;
    while i < v.len()
        invariant
            i <= v@.len(),
            p == arg_pairs(v@),
            lookup(p, name@) == lookup(p.skip(i as int), name@),
        decreases v@.len() - i,
    {
        if str_eq(v[i].name.as_str(), name) {
            return Some(i);
        }
        proof {
            lemma_lookup_skip(p, i as int, name@);
        }
        i += 1;
    }
    proof {
        lemma_lookup_end(p, name@);
    }
    None
}

fn find_const(v: &Vec<ShConst>, name: &str) -> (r: Option<usize>)
    ensures
        match r {
            Some(i) => i < v@.len() && lookup(const_pairs(v@), name@) == Some(v@[i as int].ty@),
            None => lookup(const_pairs(v@), name@) is None,
        },
{
    let ghost p = const_pairs(v@);
    proof {
        lemma_lookup_end(p, name@);
    }
    let mut i: usize = 0;
    while i < v.len()
        invariant
            i <= v@.len(),
            p == const_pairs(v@),
            lookup(p, name@) == lookup(p.skip(i as int), name@),
        decreases v@.len() - i,
    {
        if str_eq(v[i].name.as_str(), name) {
            return Some(i);
        }
        proof {
            lemma_lookup_skip(p, i as int, name@);
        }
        i += 1;
    }
    proof {
        lemma_lookup_end(p, name@);
    }
    None
}

/// The first user function with this name.
pub fn find_fn(v: &Vec<ShFn>, name: &str) -> (r: Option<usize>)
    ensures
        match r {
            Some(i) => i < v@.len() && v@[i as int].name@ == name@ && lookup(fn_pairs(v@), name@) == Some(v@[i as int].ret@)
                && forall|j: int| 0 <= j < i ==> (#[trigger] v@[j]).name@ != name@,
            None => lookup(fn_pairs(v@), name@) is None && forall|j: int| 0 <= j < v@.len() ==> (#[trigger] v@[j]).name@ != name@,
        },
{
    let ghost p = fn_pairs(v@);
    proof {
        lemma_lookup_end(p, name@);
    }
    let mut i: usize = 0;
    while i < v.len()
        invariant
            i <= v@.len(),
            p == fn_pairs(v@),
            lookup(p, name@) == lookup(p.skip(i as int), name@),
            forall|j: int| 0 <= j < i ==> (#[trigger] v@[j]).name@ != name@,
        decreases v@.len() - i,
    {
        if str_eq(v[i].name.as_str(), name) {
            return Some(i);
        }
        proof {
            lemma_lookup_skip(p, i as int, name@);
        }
        i += 1;
    }
    proof {
        lemma_lookup_end(p, name@);
    }
    None
}

/// The first shader variable with this name.
pub fn find_var(v: &Vec<ShVar>, name: &str) -> (r: Option<usize>)
    ensures
        match r {
            Some(i) => i < v@.len() && first_var(view_vars(v@), name@) == Some(v@[i as int]@),
            None => first_var(view_vars(v@), name@) is None,
        },
{
    let ghost p = view_vars(v@);
    let mut i: usize = 0;
    proof {
        assert(p.skip(0) =~= p);
    }
    while i < v.len()
        invariant
            i <= v@.len(),
            p == view_vars(v@),
            first_var(p, name@) == first_var(p.skip(i as int), name@),
        decreases v@.len() - i,
    {
        if str_eq(v[i].name.as_str(), name) {
            return Some(i);
        }
        proof {
            assert(p.skip(i as int).drop_first() =~= p.skip(i as int + 1));
        }
        i += 1;
    }
    None
}

fn is_type_ctor_name(name: &str) -> (r: bool)
    ensures
        r == is_type_ctor(name@),
{
    str_eq(name, "float") || str_eq(name, "vec2") || str_eq(name, "vec3") || str_eq(name, "vec4") || str_eq(name, "mat2")
        || str_eq(name, "mat3") || str_eq(name, "mat4")
}

fn is_builtin_name(name: &str) -> (r: bool)
    ensures
        r == is_builtin(name@),
{
    str_eq(name, "sin") || str_eq(name, "cos") || str_eq(name, "tan") || str_eq(name, "abs") || str_eq(name, "min")
        || str_eq(name, "max") || str_eq(name, "clamp") || str_eq(name, "dot") || str_eq(name, "cross")
        || str_eq(name, "length") || str_eq(name, "distance") || str_eq(name, "normalize") || str_eq(name, "pow")
        || str_eq(name, "sqrt") || str_eq(name, "exp") || str_eq(name, "floor") || str_eq(name, "ceil")
        || str_eq(name, "step") || str_eq(name, "smoothstep") || str_eq(name, "sign")
}

fn swizzle_type(field: &str) -> (r: String)
    ensures
        r@ == swizzle_ty(field@.len()),
{
    let n = field.unicode_len();
    if n == 1 {
        String::from_str("float")
    } else if n == 2 {
        String::from_str("vec2")
    } else if n == 3 {
        String::from_str("vec3")
    } else {
        String::from_str("vec4")
    }
}

fn wrap_call(head: &str, args: &Vec<String>) -> (r: String)
    ensures
        r@ == head@ + "("@ + join(strs(args@)) + ")"@,
{
    let mut s = String::from_str(head);
    s.append("(");
    s.append(join_strings(args).as_str());
    s.append(")");
    s
}

fn first_type(tys: &Vec<String>, args: &Vec<usize>) -> (r: String)
    requires
        forall|k: int| 0 <= k < args@.len() ==> (#[trigger] args@[k] as int) < tys@.len(),
    ensures
        r@ == first_ty(strs(tys@), args@),
{
    if args.len() > 0 {
        tys[args[0]].clone()
    } else {
        String::from_str("float")
    }
}

fn stmt_string(st: &SlStmt, texts: &Vec<String>) -> (r: String)
    requires
        stmt_refs_within(st@, texts@.len() as int),
    ensures
        r@ == stmt_text(st@, strs(texts@)),
{
    let mut s = String::from_str("  ");
    match st {
        SlStmt::Let { name, ty, value } => {
            s.append(Cx::hlsl_type(ty.as_str()).as_str());
            s.append(" ");
            s.append(name.as_str());
            s.append(" = ");
            s.append(texts[*value].as_str());
            s.append(";\n");
            proof {
                assert(s@ =~= stmt_text(st@, strs(texts@)));
            }
        },
        SlStmt::Assign { target, value } => {
            s.append(texts[*target].as_str());
            s.append(" = ");
            s.append(texts[*value].as_str());
            s.append(";\n");
            proof {
                assert(s@ =~= stmt_text(st@, strs(texts@)));
            }
        },
        SlStmt::Return { value } => {
            s.append("return ");
            s.append(texts[*value].as_str());
            s.append(";\n");
            proof {
                reveal_strlit("return ");
                reveal_strlit("  return ");
                reveal_strlit("  ");
                assert(s@ =~= stmt_text(st@, strs(texts@)));
            }
        },
        SlStmt::Eval { value } => {
            s.append(texts[*value].as_str());
            s.append(";\n");
            proof {
                assert(s@ =~= stmt_text(st@, strs(texts@)));
            }
        },
    }
    s
}

impl SlCx {
    fn translate_node(
        &mut self,
        sh: &Shader,
        scope: &Vec<ShFnArg>,
        texts: &Vec<String>,
        tys: &Vec<String>,
        node: &SlNode,
        Ghost(env): Ghost<TrEnv>,
    ) -> (r: Result<(String, String), SlErr>)
        requires
            env.target == old(self).target,
            env.shared == old(self).shared,
            env.call_prefix == old(self).call_prefix@,
            env.defargs_call == old(self).defargs_call@,
            env.scope == arg_pairs(scope@),
            env.vars == view_vars(sh.vars@),
            env.consts == const_pairs(sh.consts@),
            env.fns == fn_pairs(sh.fns@),
            texts@.len() == tys@.len(),
            node_children_before(node@, texts@.len() as int),
        ensures
            final(self).target == old(self).target,
            final(self).defargs_fn == old(self).defargs_fn,
            final(self).defargs_call == old(self).defargs_call,
            final(self).call_prefix == old(self).call_prefix,
            final(self).shared == old(self).shared,
            r matches Err(e) ==> error_in_node(e, node@),
            match tr_node(env, strs(texts@), strs(tys@), view_vars(old(self).auto_vary@), node@) {
                None => r is Err,
                Some(n) => r matches Ok(p) && p.0@ == n.0 && p.1@ == n.1 && view_vars(final(self).auto_vary@) == n.2,
            },
    {
        match node {
            SlNode::Lit { text, ty } => Ok((text.clone(), ty.clone())),
            SlNode::Ident { name } => {
                if let Some(i) = find_arg(scope, name.as_str()) {
                    return Ok((name.clone(), scope[i].ty.clone()));
                }
                if let Some(i) = find_var(&sh.vars, name.as_str()) {
                    if self.shared && (sh.vars[i].store == ShVarStore::Geometry || sh.vars[i].store == ShVarStore::Instance) {
                        return Err(SlErr::UnresolvedVariable { name: name.clone() });
                    }
                    let t = self.map_var(&sh.vars[i]);
                    return Ok((t, sh.vars[i].ty.clone()));
                }
                if let Some(i) = find_const(&sh.consts, name.as_str()) {
                    return Ok((name.clone(), sh.consts[i].ty.clone()));
                }
                Err(SlErr::UnresolvedVariable { name: name.clone() })
            },
            SlNode::Field { base, field } => {
                let mut s = texts[*base].clone();
                s.append(".");
                s.append(field.as_str());
                Ok((s, swizzle_type(field.as_str())))
            },
            SlNode::Call { name, args } => {
                let mut argv: Vec<String> = Vec::new();
                let mut sls: Vec<Sl> = Vec::new();
                let mut k: usize = 0;
                while k < args.len()
                    invariant
                        k <= args@.len(),
                        texts@.len() == tys@.len(),
                        forall|m: int| 0 <= m < args@.len() ==> (#[trigger] args@[m] as int) < texts@.len(),
                        argv@.len() == k,
                        sls@.len() == k,
                        forall|j: int| 0 <= j < k ==> (#[trigger] argv@[j])@ == texts@[args@[j] as int]@,
                        forall|j: int| 0 <= j < k ==> (#[trigger] sls@[j]).sl@ == argv@[j]@,
                    decreases args@.len() - k,
                {
                    let a = args[k];
                    argv.push(texts[a].clone());
                    sls.push(Sl { sl: texts[a].clone(), ty: tys[a].clone() });
                    k += 1;
                }
                proof {
                    assert(strs(argv@) =~= pick(strs(texts@), args@));
                    assert(sl_texts(sls@) =~= strs(argv@));
                }
                if let Some(j) = find_fn(&sh.fns, name.as_str()) {
                    let mut all: Vec<String> = Vec::new();
                    if self.defargs_call.as_str().unicode_len() > 0 {
                        all.push(self.defargs_call.clone());
                    }
                    let ghost lead = all@;
                    proof {
                        if self.defargs_call@.len() == 0 {
                            assert(lead.len() == 0);
                        } else {
                            assert(lead.len() == 1 && lead[0]@ == self.defargs_call@);
                        }
                    }
                    let mut m: usize = 0;
                    while m < argv.len()
                        invariant
                            m <= argv@.len(),
                            all@.len() == lead.len() + m,
                            forall|j: int| 0 <= j < lead.len() ==> all@[j] == lead[j],
                            forall|j: int| 0 <= j < m ==> (#[trigger] all@[lead.len() + j])@ == argv@[j]@,
                        decreases argv@.len() - m,
                    {
                        all.push(argv[m].clone());
                        m += 1;
                    }
                    proof {
                        let w = with_lead(self.defargs_call@, strs(argv@));
                        assert forall|j: int| 0 <= j < all@.len() implies strs(all@)[j] == w[j] by {
                            if j < lead.len() {
                                assert(all@[j] == lead[j]);
                            } else {
                                assert(all@[lead.len() + (j - lead.len())]@ == argv@[j - lead.len()]@);
                            }
                        }
                        assert(strs(all@) =~= w);
                    }
                    let mut head = self.call_prefix.clone();
                    head.append(name.as_str());
                    return Ok((wrap_call(head.as_str(), &all), sh.fns[j].ret.clone()));
                }
                if (str_eq(name.as_str(), "sample2d") && sls.len() < 2) || (str_eq(name.as_str(), "color") && sls.len() < 1) {
                    return Err(SlErr::UnknownIntrinsic { name: name.clone() });
                }
                match self.map_call(name.as_str(), &sls) {
                    MapCallResult::Rewrite(s, t) => Ok((s, t)),
                    MapCallResult::Rename(n) => Ok((wrap_call(n.as_str(), &argv), first_type(tys, args))),
                    MapCallResult::PassThrough => {
                        if is_type_ctor_name(name.as_str()) {
                            let h = Cx::hlsl_type(name.as_str());
                            Ok((wrap_call(h.as_str(), &argv), name.clone()))
                        } else if is_builtin_name(name.as_str()) {
                            Ok((wrap_call(name.as_str(), &argv), first_type(tys, args)))
                        } else {
                            Err(SlErr::UnknownIntrinsic { name: name.clone() })
                        }
                    },
                }
            },
            SlNode::Binary { left, op, right } => {
                let mut s = String::from_str("(");
                s.append(texts[*left].as_str());
                s.append(" ");
                s.append(op.as_str());
                s.append(" ");
                s.append(texts[*right].as_str());
                s.append(")");
                let t = if str_eq(tys[*left].as_str(), "float") {
                    tys[*right].clone()
                } else {
                    tys[*left].clone()
                };
                Ok((s, t))
            },
            SlNode::MatMul { left, right } => {
                let s = self.mat_mul(texts[*left].as_str(), texts[*right].as_str());
                Ok((s, tys[*right].clone()))
            },
        }
    }
}

impl SlCx {
    /// Translates a user function into an HLSL definition. Fails with
    /// `UnresolvedVariable` or `UnknownIntrinsic` exactly where a node has no
    /// translation.
    pub fn translate_fn(&mut self, sh: &Shader, f: &ShFn) -> (r: Result<String, SlErr>)
        requires
            f.wf(),
        ensures
            final(self).target == old(self).target,
            final(self).defargs_fn == old(self).defargs_fn,
            final(self).defargs_call == old(self).defargs_call,
            final(self).call_prefix == old(self).call_prefix,
            final(self).shared == old(self).shared,
            r matches Err(e) ==> exists|k: int| #[trigger] first_failure(env_of(old(self), sh, f), view_vars(old(self).auto_vary@), node_views(f.nodes@), k)
                && error_in_node(e, f.nodes@[k]@),
            match tr_nodes(env_of(old(self), sh, f), view_vars(old(self).auto_vary@), node_views(f.nodes@)) {
                None => r is Err,
                Some(st) => r matches Ok(text) && text@ == fn_text(old(self), f, st.0)
                    && view_vars(final(self).auto_vary@) == st.2,
            },
    {
        let ghost env = env_of(self, sh, f);
        let ghost av0 = view_vars(self.auto_vary@);
        let ghost views = node_views(f.nodes@);
        let ghost bodyv = stmt_views(f.body@);
        let mut scope: Vec<ShFnArg> = Vec::new();
        let mut i: usize = 0;
        while i < f.args.len()
            invariant
                i <= f.args@.len(),
                scope@.len() == i,
                forall|j: int| 0 <= j < i ==> (#[trigger] scope@[j]).name@ == f.args@[j].name@ && scope@[j].ty@ == f.args@[j].ty@,
            decreases f.args@.len() - i,
        {
            scope.push(ShFnArg { name: f.args[i].name.clone(), ty: f.args[i].ty.clone() });
            i += 1;
        }
        proof {
            assert(arg_pairs(scope@) =~= arg_pairs(f.args@));
            assert(bodyv.take(0) =~= Seq::<SlStmtView>::empty());
            assert(arg_pairs(scope@) =~= arg_pairs(f.args@) + lets(bodyv.take(0)));
        }
        let mut b: usize = 0;
        while b < f.body.len()
            invariant
                b <= f.body@.len(),
                bodyv == stmt_views(f.body@),
                arg_pairs(scope@) == arg_pairs(f.args@) + lets(bodyv.take(b as int)),
            decreases f.body@.len() - b,
        {
            proof {
                assert(bodyv.take(b as int + 1).drop_last() =~= bodyv.take(b as int));
            }
            match &f.body[b] {
                SlStmt::Let { name, ty, .. } => {
                    let ghost before = arg_pairs(scope@);
                    scope.push(ShFnArg { name: name.clone(), ty: ty.clone() });
                    proof {
                        assert(arg_pairs(scope@) =~= before.push((name@, ty@)));
                        assert(bodyv.take(b as int + 1).last() == f.body@[b as int]@);
                        assert(lets(bodyv.take(b as int + 1)) == lets(bodyv.take(b as int)).push((name@, ty@)));
                        assert(arg_pairs(scope@) =~= arg_pairs(f.args@) + lets(bodyv.take(b as int + 1)));
                    }
                },
                _ => {
                    proof {
                        assert(bodyv.take(b as int + 1).last() == f.body@[b as int]@);
                        assert(lets(bodyv.take(b as int + 1)) == lets(bodyv.take(b as int)));
                    }
                },
            }
            b += 1;
        }
        proof {
            assert(bodyv.take(f.body@.len() as int) =~= bodyv);
            assert(arg_pairs(scope@) == fn_scope(f));
        }
        let mut texts: Vec<String> = Vec::new();
        let mut tys: Vec<String> = Vec::new();
        let mut n: usize = 0;
        proof {
            assert(views.take(0) =~= Seq::<SlNodeView>::empty());
            assert(strs(texts@) =~= Seq::<Seq<char>>::empty());
            assert(strs(tys@) =~= Seq::<Seq<char>>::empty());
        }
        while n < f.nodes.len()
            invariant
                f.wf(),
                n <= f.nodes@.len(),
                views == node_views(f.nodes@),
                env == env_of(old(self), sh, f),
                av0 == view_vars(old(self).auto_vary@),
                arg_pairs(scope@) == fn_scope(f),
                self.target == old(self).target,
                self.defargs_fn == old(self).defargs_fn,
                self.defargs_call == old(self).defargs_call,
                self.call_prefix == old(self).call_prefix,
                self.shared == old(self).shared,
                texts@.len() == n,
                tys@.len() == n,
                tr_nodes(env, av0, views.take(n as int)) == Some((strs(texts@), strs(tys@), view_vars(self.auto_vary@))),
            decreases f.nodes@.len() - n,
        {
            proof {
                assert(views.take(n as int + 1).drop_last() =~= views.take(n as int));
                assert(views.take(n as int + 1).last() == f.nodes@[n as int]@);
                assert(node_children_before(f.nodes@[n as int]@, n as int));
            }
            match self.translate_node(sh, &scope, &texts, &tys, &f.nodes[n], Ghost(env)) {
                Ok(p) => {
                    let (t, ty) = p;
                    let ghost t0 = strs(texts@);
                    let ghost y0 = strs(tys@);
                    let ghost tv = t@;
                    let ghost yv = ty@;
                    texts.push(t);
                    tys.push(ty);
                    proof {
                        assert(strs(texts@) =~= t0.push(tv));
                        assert(strs(tys@) =~= y0.push(yv));
                    }
                },
                Err(e) => {
                    proof {
                        assert(error_in_node(e, f.nodes@[n as int]@));
                        assert(first_failure(env, av0, views, n as int));
                        assert(tr_node(env, strs(texts@), strs(tys@), view_vars(self.auto_vary@), f.nodes@[n as int]@) is None);
                        assert(tr_nodes(env, av0, views.take(n as int + 1)) is None);
                        lemma_tr_nodes_none(env, av0, views, n as int);
                    }
                    return Err(e);
                },
            }
            n += 1;
        }
        proof {
            assert(views.take(f.nodes@.len() as int) =~= views);
        }
        let mut decls: Vec<String> = Vec::new();
        if self.defargs_fn.as_str().unicode_len() > 0 {
            decls.push(self.defargs_fn.clone());
        }
        let ghost lead = decls@;
        let mut a: usize = 0;
        while a < f.args.len()
            invariant
                a <= f.args@.len(),
                decls@.len() == lead.len() + a,
                forall|j: int| 0 <= j < lead.len() ==> decls@[j] == lead[j],
                forall|j: int| 0 <= j < a ==> (#[trigger] decls@[lead.len() + j])@ == arg_decls(f.args@)[j],
            decreases f.args@.len() - a,
        {
            let mut d = Cx::hlsl_type(f.args[a].ty.as_str());
            d.append(" ");
            d.append(f.args[a].name.as_str());
            decls.push(d);
            a += 1;
        }
        proof {
            let w = with_lead(self.defargs_fn@, arg_decls(f.args@));
            if self.defargs_fn@.len() == 0 {
                assert(lead.len() == 0);
            } else {
                assert(lead.len() == 1 && lead[0]@ == self.defargs_fn@);
            }
            assert forall|j: int| 0 <= j < decls@.len() implies strs(decls@)[j] == w[j] by {
                if j < lead.len() {
                    assert(decls@[j] == lead[j]);
                } else {
                    assert(decls@[lead.len() + (j - lead.len())]@ == arg_decls(f.args@)[j - lead.len()]);
                }
            }
            assert(strs(decls@) =~= w);
        }
        let mut out = Cx::hlsl_type(f.ret.as_str());
        out.append(" ");
        out.append(self.call_prefix.as_str());
        out.append(f.name.as_str());
        out.append("(");
        out.append(join_strings(&decls).as_str());
        out.append("){\n");
        let ghost head = out@;
        let mut k: usize = 0;
        while k < f.body.len()
            invariant
                f.wf(),
                k <= f.body@.len(),
                bodyv == stmt_views(f.body@),
                texts@.len() == f.nodes@.len(),
                out@ == head + stmts_text(bodyv.take(k as int), strs(texts@)),
            decreases f.body@.len() - k,
        {
            proof {
                assert(bodyv.take(k as int + 1).drop_last() =~= bodyv.take(k as int));
                assert(stmt_refs_within(f.body@[k as int]@, f.nodes@.len() as int));
            }
            let line = stmt_string(&f.body[k], &texts);
            out.append(line.as_str());
            proof {
                assert(out@ =~= head + stmts_text(bodyv.take(k as int + 1), strs(texts@)));
            }
            k += 1;
        }
        out.append("}\n");
        proof {
            assert(bodyv.take(f.body@.len() as int) =~= bodyv);
            assert(out@ =~= fn_text(old(self), f, strs(texts@)));
        }
        Ok(out)
    }
}

proof fn lemma_tr_nodes_none(env: TrEnv, av0: Seq<ShVarView>, views: Seq<SlNodeView>, n: int)
    requires
        0 <= n < views.len(),
        tr_nodes(env, av0, views.take(n + 1)) is None,
    ensures
        tr_nodes(env, av0, views) is None,
    decreases views.len() - n,
{
    if n + 1 == views.len() {
        assert(views.take(n + 1) =~= views);
    } else {
        assert(views.take(n + 2).drop_last() =~= views.take(n + 1));
        lemma_tr_nodes_none(env, av0, views, n + 1);
    }
}

/// Translation only adds promoted variables one reference at a time, so it
/// keeps them distinct by name and made of geometry and instance variables.
pub proof fn lemma_tr_nodes_unique(env: TrEnv, av0: Seq<ShVarView>, nodes: Seq<SlNodeView>)
    requires
        unique_names(av0),
        all_inputs(av0),
        tr_nodes(env, av0, nodes) is Some,
    ensures
        unique_names(tr_nodes(env, av0, nodes)->Some_0.2),
        all_inputs(tr_nodes(env, av0, nodes)->Some_0.2),
    decreases nodes.len(),
{
    if nodes.len() > 0 {
        lemma_tr_nodes_unique(env, av0, nodes.drop_last());
        let st = tr_nodes(env, av0, nodes.drop_last())->Some_0;
        match nodes.last() {
            SlNodeView::Ident { name } => {
                if lookup(env.scope, name) is None && first_var(env.vars, name) is Some {
                    lemma_step_keeps_unique(st.2, first_var(env.vars, name)->Some_0, env.target);
                }
            },
            _ => {},
        }
    }
}

/// Node `n` reads the geometry or instance variable named `vname` (not a
/// parameter or local of the same name).
pub open spec fn reads_input(env: TrEnv, n: SlNodeView, vname: Seq<char>) -> bool {
    n matches SlNodeView::Ident { name } && lookup(env.scope, name) is None && first_var(env.vars, name) is Some && {
        let v = first_var(env.vars, name)->Some_0;
        &&& v.store == ShVarStore::Geometry || v.store == ShVarStore::Instance
        &&& v.name == vname
    }
}

/// Translation keeps every promoted name, and in the pixel stage promotes
/// every geometry or instance variable that a node reads.
pub proof fn lemma_tr_nodes_promotes(env: TrEnv, av0: Seq<ShVarView>, nodes: Seq<SlNodeView>)
    requires
        tr_nodes(env, av0, nodes) is Some,
    ensures
        forall|n: Seq<char>| has_name(av0, n) ==> has_name(tr_nodes(env, av0, nodes)->Some_0.2, n),
        env.target == SlTarget::Pixel ==> forall|k: int, n: Seq<char>| 0 <= k < nodes.len() && #[trigger] reads_input(env, nodes[k], n)
            ==> has_name(tr_nodes(env, av0, nodes)->Some_0.2, n),
    decreases nodes.len(),
{
    if nodes.len() > 0 {
        let init = nodes.drop_last();
        lemma_tr_nodes_promotes(env, av0, init);
        let st = tr_nodes(env, av0, init)->Some_0;
        let out = tr_nodes(env, av0, nodes)->Some_0.2;
        match nodes.last() {
            SlNodeView::Ident { name } => {
                if lookup(env.scope, name) is None && first_var(env.vars, name) is Some {
                    lemma_step_monotone(st.2, first_var(env.vars, name)->Some_0, env.target);
                }
            },
            _ => {},
        }
        if env.target == SlTarget::Pixel {
            assert forall|k: int, n: Seq<char>| 0 <= k < nodes.len() && #[trigger] reads_input(env, nodes[k], n) implies has_name(out, n) by {
                if k < init.len() {
                    assert(init[k] == nodes[k]);
                    assert(reads_input(env, init[k], n));
                }
            }
        }
    }
}

/// Translation promotes a variable only where a node in the pixel stage reads it.
pub proof fn lemma_tr_nodes_promotes_only_reads(env: TrEnv, av0: Seq<ShVarView>, nodes: Seq<SlNodeView>)
    requires
        tr_nodes(env, av0, nodes) is Some,
    ensures
        forall|j: int| 0 <= j < tr_nodes(env, av0, nodes)->Some_0.2.len() ==> has_name(av0, #[trigger] tr_nodes(env, av0, nodes)->Some_0.2[j].name)
            || (env.target == SlTarget::Pixel && exists|k: int| 0 <= k < nodes.len() && #[trigger] reads_input(env, nodes[k], tr_nodes(env, av0, nodes)->Some_0.2[j].name)),
    decreases nodes.len(),
{
    if nodes.len() > 0 {
        let init = nodes.drop_last();
        lemma_tr_nodes_promotes_only_reads(env, av0, init);
        let st = tr_nodes(env, av0, init)->Some_0;
        let out = tr_nodes(env, av0, nodes)->Some_0.2;
        assert forall|j: int| 0 <= j < out.len() implies has_name(av0, #[trigger] out[j].name)
            || (env.target == SlTarget::Pixel && exists|k: int| 0 <= k < nodes.len() && #[trigger] reads_input(env, nodes[k], out[j].name)) by {
            if j < st.2.len() {
                assert(out[j] == st.2[j]) by {
                    match nodes.last() {
                        SlNodeView::Ident { name } => {},
                        _ => {},
                    }
                }
                if !has_name(av0, st.2[j].name) {
                    let k = choose|k: int| 0 <= k < init.len() && #[trigger] reads_input(env, init[k], st.2[j].name);
                    assert(init[k] == nodes[k]);
                }
            } else {
                let k = nodes.len() - 1;
                assert(nodes[k] == nodes.last());
                assert(reads_input(env, nodes[k], out[j].name));
            }
        }
    }
}

} // verus!
