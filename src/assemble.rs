//! The HLSL backend assembler: classification, function resolution and
//! translation, and the composed source text with its entry wrappers.

use vstd::prelude::*;
use crate::ast::{ShFn, Shader, SlNode, SlNodeView};
use crate::hlsl_emit::{init_struct, struct_decl, texture_decls};
use crate::registry::Cx;
use crate::layout::{NamedProps, RectInstanceProps, all_data, float_offset, lays_out};
use crate::resolve::{adj, calls, emission_order, graph_wf, resolve_fn_order};
use crate::shader::{ShConst, ShVar, ShVarStore, ShVarView, SlErr, SlTarget, flat_vars, compute_slot_total, is_data_type, is_supported_type, slot_sum, vars_in, view_vars};
use crate::slcx::{SlCx, all_inputs, has_name, unique_names};
use crate::text::str_eq;
use crate::translate::{PassView, env_for, error_in_node, first_failure, lemma_tr_nodes_promotes, lemma_tr_nodes_promotes_only_reads, reads_input, fn_text_for, find_fn, lemma_tr_nodes_unique, node_views, tr_nodes, pass_of};

verus! {

/// Node `n` calls a function of this name.
pub open spec fn node_calls(n: SlNodeView, name: Seq<char>) -> bool {
    match n {
        SlNodeView::Call { name: m, .. } => m == name,
        _ => false,
    }
}

/// `f` calls a function of this name somewhere in its body.
pub open spec fn calls_name(f: ShFn, name: Seq<char>) -> bool {
    exists|k: int| 0 <= k < f.nodes@.len() && #[trigger] node_calls(f.nodes@[k]@, name)
}

/// Function `b` is the first one with its name.
pub open spec fn first_named(fns: Seq<ShFn>, b: int) -> bool {
    forall|j: int| 0 <= j < b ==> (#[trigger] fns[j]).name@ != fns[b].name@
}

/// Function `a` calls function `b`.
pub open spec fn fn_calls(fns: Seq<ShFn>, a: int, b: int) -> bool {
    &&& 0 <= a < fns.len()
    &&& 0 <= b < fns.len()
    &&& calls_name(fns[a], fns[b].name@)
    &&& first_named(fns, b)
}

/// The call graph of the user functions: for each function, the indices of
/// the functions it calls.
pub fn call_graph(fns: &Vec<ShFn>) -> (g: Vec<Vec<usize>>)
    ensures
        g@.len() == fns@.len(),
        graph_wf(g@),
        forall|a: usize, b: usize| #[trigger] calls(g@, a, b) <==> fn_calls(fns@, a as int, b as int),
        adj(g@) == spec_graph(fns@),
{
    let mut g: Vec<Vec<usize>> = Vec::new();
    let mut a: usize = 0;
    while a < fns.len()
        invariant
            a <= fns@.len(),
            g@.len() == a,
            forall|x: int, k: int| 0 <= x < a && 0 <= k < g@[x]@.len() ==> (#[trigger] g@[x]@[k] as int) < fns@.len(),
            forall|x: usize, b: usize| (x as int) < a ==> (#[trigger] g@[x as int]@.contains(b) <==> fn_calls(fns@, x as int, b as int)),
            forall|x: int| 0 <= x < a ==> (#[trigger] g@[x])@ == node_callees(fns@, node_views(fns@[x].nodes@)),
        decreases fns@.len() - a,
    {
        let f = &fns[a];
        let mut edges: Vec<usize> = Vec::new();
        let mut k: usize = 0;
        while k < f.nodes.len()
            invariant
                k <= f.nodes@.len(),
                forall|m: int| 0 <= m < edges@.len() ==> (#[trigger] edges@[m] as int) < fns@.len(),
                forall|b: usize| #[trigger] edges@.contains(b) <==> ((b as int) < fns@.len() && first_named(fns@, b as int)
                    && exists|m: int| 0 <= m < k && #[trigger] node_calls(f.nodes@[m]@, fns@[b as int].name@)),
                edges@ == node_callees(fns@, node_views(f.nodes@).take(k as int)),
            decreases f.nodes@.len() - k,
        {
            proof {
                assert(node_views(f.nodes@).take(k as int + 1).drop_last() =~= node_views(f.nodes@).take(k as int));
                assert(node_views(f.nodes@).take(k as int + 1).last() == f.nodes@[k as int]@);
            }
            match &f.nodes[k] {
                SlNode::Call { name, .. } => {
                    match find_fn(fns, name.as_str()) {
                        Some(j) => {
                            let ghost e0 = edges@;
                            edges.push(j);
                            proof {
                                lemma_first_fn(fns@, name@, j);
                                assert forall|b: usize| #[trigger] edges@.contains(b) <==> ((b as int) < fns@.len() && first_named(fns@, b as int)
                                    && exists|m: int| 0 <= m < k + 1 && #[trigger] node_calls(f.nodes@[m]@, fns@[b as int].name@)) by {
                                    if edges@.contains(b) && b != j {
                                        assert(e0.contains(b)) by {
                                            let w = choose|w: int| 0 <= w < edges@.len() && edges@[w] == b;
                                            assert(e0[w] == b);
                                        }
                                    }
                                    if b == j {
                                        assert(edges@[e0.len() as int] == j);
                                        assert(node_calls(f.nodes@[k as int]@, fns@[b as int].name@));
                                    }
                                    if (b as int) < fns@.len() && first_named(fns@, b as int)
                                        && exists|m: int| 0 <= m < k + 1 && #[trigger] node_calls(f.nodes@[m]@, fns@[b as int].name@) {
                                        let m = choose|m: int| 0 <= m < k + 1 && #[trigger] node_calls(f.nodes@[m]@, fns@[b as int].name@);
                                        if m == k {
                                            assert(fns@[b as int].name@ == name@);
                                            if (b as int) < (j as int) {
                                                assert(fns@[b as int].name@ != name@);
                                            }
                                            if (j as int) < (b as int) {
                                                assert(fns@[j as int].name@ != fns@[b as int].name@);
                                            }
                                            assert(b == j);
                                            assert(edges@[e0.len() as int] == j);
                                        } else {
                                            assert(e0.contains(b));
                                            let w = choose|w: int| 0 <= w < e0.len() && e0[w] == b;
                                            assert(edges@[w] == b);
                                        }
                                    }
                                }
                            }
                        },
                        None => {
                            proof {
                                if exists|w: usize| entry_index(fns@, name@, w) {
                                    let w = choose|w: usize| entry_index(fns@, name@, w);
                                    assert(fns@[w as int].name@ == name@);
                                }
                                assert forall|b: usize| #[trigger] edges@.contains(b) <==> ((b as int) < fns@.len() && first_named(fns@, b as int)
                                    && exists|m: int| 0 <= m < k + 1 && #[trigger] node_calls(f.nodes@[m]@, fns@[b as int].name@)) by {
                                    if (b as int) < fns@.len() && exists|m: int| 0 <= m < k + 1 && #[trigger] node_calls(f.nodes@[m]@, fns@[b as int].name@) {
                                        let m = choose|m: int| 0 <= m < k + 1 && #[trigger] node_calls(f.nodes@[m]@, fns@[b as int].name@);
                                        if m == k {
                                            assert(fns@[b as int].name@ != name@);
                                        }
                                    }
                                }
                            }
                        },
                    }
                },
                _ => {
                    proof {
                        assert forall|b: usize| #[trigger] edges@.contains(b) <==> ((b as int) < fns@.len() && first_named(fns@, b as int)
                            && exists|m: int| 0 <= m < k + 1 && #[trigger] node_calls(f.nodes@[m]@, fns@[b as int].name@)) by {
                            if (b as int) < fns@.len() && exists|m: int| 0 <= m < k + 1 && #[trigger] node_calls(f.nodes@[m]@, fns@[b as int].name@) {
                                let m = choose|m: int| 0 <= m < k + 1 && #[trigger] node_calls(f.nodes@[m]@, fns@[b as int].name@);
                                assert(m != k);
                            }
                        }
                    }
                },
            }
            k += 1;
        }
        g.push(edges);
        proof {
            assert(node_views(f.nodes@).take(f.nodes@.len() as int) =~= node_views(f.nodes@));
            assert forall|x: usize, b: usize| (x as int) < a + 1 implies (#[trigger] g@[x as int]@.contains(b) <==> fn_calls(fns@, x as int, b as int)) by {
                if x as int == a as int {
                    assert(g@[x as int]@ == edges@);
                }
            }
        }
        a += 1;
    }
    g
}

/// The first function named `name`, where one is.
pub open spec fn entry_index(fns: Seq<ShFn>, name: Seq<char>, i: usize) -> bool {
    (i as int) < fns.len() && fns[i as int].name@ == name && first_named(fns, i as int)
}

/// The index of the first function named `name`.
pub open spec fn first_fn(fns: Seq<ShFn>, name: Seq<char>) -> Option<usize> {
    if exists|i: usize| entry_index(fns, name, i) {
        Some(choose|i: usize| entry_index(fns, name, i))
    } else {
        None
    }
}

proof fn lemma_first_fn(fns: Seq<ShFn>, name: Seq<char>, i: usize)
    requires
        entry_index(fns, name, i),
    ensures
        first_fn(fns, name) == Some(i),
{
    let j = choose|j: usize| entry_index(fns, name, j);
    if j < i {
        assert(fns[j as int].name@ != fns[i as int].name@);
    }
    if i < j {
        assert(fns[i as int].name@ != fns[j as int].name@);
    }
}

/// The functions that the call nodes name, in node order.
pub open spec fn node_callees(fns: Seq<ShFn>, nodes: Seq<SlNodeView>) -> Seq<usize>
    decreases nodes.len(),
{
    if nodes.len() == 0 {
        seq![]
    } else {
        let r = node_callees(fns, nodes.drop_last());
        match nodes.last() {
            SlNodeView::Call { name, .. } => match first_fn(fns, name) {
                Some(j) => r.push(j),
                None => r,
            },
            _ => r,
        }
    }
}

/// The call graph: for each function, the functions its calls name.
pub open spec fn spec_graph(fns: Seq<ShFn>) -> Seq<Seq<usize>> {
    Seq::new(fns.len(), |a: int| node_callees(fns, node_views(fns[a].nodes@)))
}


/// The parameters every generated function takes, in both stages.
pub open spec fn defargs_fn() -> Seq<char> {
    "inout _Loc _loc, inout _Vary _vary, in _Geom _geom, in _Inst _inst"@
}

/// The arguments every call of a generated function passes.
pub open spec fn defargs_call() -> Seq<char> {
    "_loc, _vary, _geom, _inst"@
}

/// The vertex pass; `shared` when the function is reached from `pixel` too.
pub open spec fn vertex_pass(shared: bool) -> PassView {
    PassView { target: SlTarget::Vertex, shared, call_prefix: "_"@, defargs_fn: defargs_fn(), defargs_call: defargs_call() }
}

/// The pixel pass, for functions reached from `pixel` only.
pub open spec fn pixel_pass() -> PassView {
    PassView { target: SlTarget::Pixel, shared: false, call_prefix: "_"@, defargs_fn: defargs_fn(), defargs_call: defargs_call() }
}

/// The pass of function `i`: the vertex pass when `vertex` reaches it
/// (`vset`), shared when `pixel` reaches it too (`pset`), else the pixel pass.
pub open spec fn pass_for(i: usize, vset: Seq<usize>, pset: Seq<usize>) -> PassView {
    if vset.contains(i) {
        vertex_pass(pset.contains(i))
    } else {
        pixel_pass()
    }
}

/// The functions of `order` translated, each once in its pass: the vertex
/// pass texts, the pixel pass texts, and the promoted variables.
pub open spec fn emit_fns(sh: &Shader, order: Seq<usize>, vset: Seq<usize>, pset: Seq<usize>, av: Seq<ShVarView>) -> Option<
    (Seq<char>, Seq<char>, Seq<ShVarView>),
>
    decreases order.len(),
{
    if order.len() == 0 {
        Some((Seq::<char>::empty(), Seq::<char>::empty(), av))
    } else {
        match emit_fns(sh, order.drop_last(), vset, pset, av) {
            None => None,
            Some(acc) => {
                let f = sh.fns@[order.last() as int];
                let p = pass_for(order.last(), vset, pset);
                match tr_nodes(env_for(p, sh, &f), acc.2, node_views(f.nodes@)) {
                    None => None,
                    Some(st) => if vset.contains(order.last()) {
                        Some((acc.0 + fn_text_for(p, &f, st.0), acc.1, st.2))
                    } else {
                        Some((acc.0, acc.1 + fn_text_for(p, &f, st.0), st.2))
                    },
                }
            },
        }
    }
}

proof fn lemma_emit_none(sh: &Shader, order: Seq<usize>, vset: Seq<usize>, pset: Seq<usize>, av: Seq<ShVarView>, n: int)
    requires
        0 <= n < order.len(),
        emit_fns(sh, order.take(n + 1), vset, pset, av) is None,
    ensures
        emit_fns(sh, order, vset, pset, av) is None,
    decreases order.len() - n,
{
    if n + 1 == order.len() {
        assert(order.take(n + 1) =~= order);
    } else {
        assert(order.take(n + 2).drop_last() =~= order.take(n + 1));
        lemma_emit_none(sh, order, vset, pset, av, n + 1);
    }
}

/// `e` reports the first failing node `k` of the `i`-th function of
/// `order`, the first function whose translation fails.
pub open spec fn fails_at(sh: &Shader, order: Seq<usize>, vset: Seq<usize>, pset: Seq<usize>, i: int, k: int, e: SlErr) -> bool {
    &&& 0 <= i < order.len()
    &&& emit_fns(sh, order.take(i), vset, pset, seq![]) is Some
    &&& {
        let f = sh.fns@[order[i] as int];
        let acc = emit_fns(sh, order.take(i), vset, pset, seq![])->Some_0;
        &&& first_failure(env_for(pass_for(order[i], vset, pset), sh, &f), acc.2, node_views(f.nodes@), k)
        &&& error_in_node(e, f.nodes@[k]@)
    }
}

fn contains_index(v: &Vec<usize>, x: usize) -> (r: bool)
    ensures
        r == v@.contains(x),
{
    let mut i: usize = 0;
    while i < v.len()
        invariant
            i <= v@.len(),
            forall|j: int| 0 <= j < i ==> v@[j] != x,
        decreases v@.len() - i,
    {
        if v[i] == x {
            return true;
        }
        i += 1;
    }
    false
}

/// Translates each function of `order` once, in the pass that `vorder` and
/// `porder` (the functions each entry reaches) select.
#[verifier::rlimit(60)]
pub fn assemble_fns(sh: &Shader, order: &Vec<usize>, vorder: &Vec<usize>, porder: &Vec<usize>) -> (r: Result<(String, String, Vec<ShVar>), SlErr>)
    requires
        sh.wf(),
        forall|i: int| 0 <= i < order@.len() ==> (#[trigger] order@[i] as int) < sh.fns@.len(),
    ensures
        r matches Err(e) ==> exists|i: int, k: int| #[trigger] fails_at(sh, order@, vorder@, porder@, i, k, e),
        match emit_fns(sh, order@, vorder@, porder@, seq![]) {
            None => r is Err,
            Some(e) => r matches Ok(t) && t.0@ == e.0 && t.1@ == e.1 && view_vars(t.2@) == e.2,
        },
{
    let mut cx = SlCx {
        target: SlTarget::Vertex,
        defargs_fn: String::from_str("inout _Loc _loc, inout _Vary _vary, in _Geom _geom, in _Inst _inst"),
        defargs_call: String::from_str("_loc, _vary, _geom, _inst"),
        call_prefix: String::from_str("_"),
        auto_vary: Vec::new(),
        shared: false,
    };
    let mut vtx = String::new();
    let mut pix = String::new();
    let mut i: usize = 0;
    proof {
        assert(order@.take(0) =~= Seq::<usize>::empty());
        assert(view_vars(cx.auto_vary@) =~= Seq::<ShVarView>::empty());
    }
    while i < order.len()
        invariant
            sh.wf(),
            i <= order@.len(),
            forall|j: int| 0 <= j < order@.len() ==> (#[trigger] order@[j] as int) < sh.fns@.len(),
            cx.call_prefix@ == "_"@,
            cx.defargs_fn@ == defargs_fn(),
            cx.defargs_call@ == defargs_call(),
            emit_fns(sh, order@.take(i as int), vorder@, porder@, seq![]) == Some((vtx@, pix@, view_vars(cx.auto_vary@))),
        decreases order@.len() - i,
    {
        let idx = order[i];
        let vert = contains_index(vorder, idx);
        if vert {
            cx.target = SlTarget::Vertex;
            cx.shared = contains_index(porder, idx);
        } else {
            cx.target = SlTarget::Pixel;
            cx.shared = false;
        }
        proof {
            assert(order@.take(i as int + 1).drop_last() =~= order@.take(i as int));
            assert(order@.take(i as int + 1).last() == idx);
            assert(pass_of(&cx) == pass_for(idx, vorder@, porder@));
            assert(sh.fns@[idx as int].wf());
        }
        let ghost av_before = view_vars(cx.auto_vary@);
        match cx.translate_fn(sh, &sh.fns[idx]) {
            Ok(t) => {
                if vert {
                    vtx.append(t.as_str());
                } else {
                    pix.append(t.as_str());
                }
            },
            Err(e) => {
                proof {
                    lemma_emit_none(sh, order@, vorder@, porder@, seq![], i as int);
                    let f = sh.fns@[idx as int];
                    let k = choose|k: int| #[trigger] first_failure(env_for(pass_for(idx, vorder@, porder@), sh, &f), av_before, node_views(f.nodes@), k)
                        && error_in_node(e, f.nodes@[k]@);
                    assert(fails_at(sh, order@, vorder@, porder@, i as int, k, e));
                }
                return Err(e);
            },
        }
        i += 1;
    }
    proof {
        assert(order@.take(order@.len() as int) =~= order@);
    }
    Ok((vtx, pix, cx.auto_vary))
}

/// The sampler every texture read goes through.
pub open spec fn preamble() -> Seq<char> {
    "SamplerState DefaultTextureSampler{Filter = MIN_MAG_MIP_LINEAR;AddressU = Wrap;AddressV=Wrap;};\n"@
}

/// One `#define` per constant.
pub open spec fn const_defines(cs: Seq<ShConst>) -> Seq<char>
    decreases cs.len(),
{
    if cs.len() == 0 {
        Seq::<char>::empty()
    } else {
        const_defines(cs.drop_last()) + "#define  "@ + cs.last().name@ + " ("@ + cs.last().value@ + ")\n"@
    }
}

/// The copies of promoted variables from their inputs into the varyings.
pub open spec fn auto_copies(av: Seq<ShVarView>) -> Seq<char>
    decreases av.len(),
{
    if av.len() == 0 {
        Seq::<char>::empty()
    } else {
        auto_copies(av.drop_last()) + "       _vary."@ + av.last().name + " = "@ + (if av.last().store
            == ShVarStore::Geometry {
            "_geom."@
        } else {
            "_inst."@
        }) + av.last().name + ";\n"@
    }
}

/// The vertex entry: zeroed locals and varyings, the user `vertex` function
/// for the position, then the copies of promoted variables.
pub open spec fn vertex_wrapper(locals: Seq<ShVarView>, varyings: Seq<ShVarView>, av: Seq<ShVarView>) -> Seq<char> {
    "_Vary _vertex_shader(_Geom _geom, _Inst _inst, uint inst_id: SV_InstanceID){\n"@ + "  _Loc _loc = "@
        + init_struct(locals, ""@) + ";\n"@ + "  _Vary _vary = "@ + init_struct(varyings, "float4(0.0,0.0,0.0,0.0),"@)
        + ";\n"@ + "  _vary.hlsl_position = _vertex(_loc, _vary, _geom, _inst);\n\n"@ + auto_copies(av)
        + "       return _vary;\n};\n"@
}

/// The pixel entry: zeroed locals and (absent in this stage) inputs, then
/// the colour of the user `pixel` function.
pub open spec fn pixel_wrapper(locals: Seq<ShVarView>, geoms: Seq<ShVarView>, insts: Seq<ShVarView>) -> Seq<char> {
    "float4 _pixel_shader(_Vary _vary) : SV_TARGET{\n"@ + "  _Loc _loc = "@ + init_struct(locals, ""@) + ";\n"@
        + "  _Geom _geom = "@ + init_struct(geoms, ""@) + ";\n"@ + "  _Inst _inst = "@ + init_struct(insts, ""@) + ";\n"@
        + "  return _pixel(_loc, _vary, _geom, _inst);\n};\n"@
}

/// The declarations: sampler, textures, input and uniform structs, locals.
pub open spec fn decls_text(vs: Seq<ShVarView>) -> Seq<char> {
    preamble() + texture_decls(vars_in(vs, ShVarStore::Texture))
        + struct_decl("struct"@, "_Geom"@, vars_in(vs, ShVarStore::Geometry), "GEOM_"@, ""@, ""@)
        + struct_decl("struct"@, "_Inst"@, vars_in(vs, ShVarStore::Instance), "INST_"@, ""@, ""@)
        + struct_decl("cbuffer"@, "_Uni_Cx"@, vars_in(vs, ShVarStore::UniformCx), ""@, ""@, ": register(b0)"@)
        + struct_decl("cbuffer"@, "_Uni_Dl"@, vars_in(vs, ShVarStore::UniformDl), ""@, ""@, ": register(b1)"@)
        + struct_decl("cbuffer"@, "_Uni_Dr"@, vars_in(vs, ShVarStore::Uniform), ""@, ""@, ": register(b2)"@)
        + struct_decl("struct"@, "_Loc"@, vars_in(vs, ShVarStore::Local), ""@, ""@, ""@)
}

/// The whole HLSL source of a shader, given its translated functions and
/// the variables the pixel stage promoted.
pub open spec fn hlsl_text(sh: &Shader, vtx: Seq<char>, pix: Seq<char>, av: Seq<ShVarView>) -> Seq<char> {
    let vs = view_vars(sh.vars@);
    let varyings = vars_in(vs, ShVarStore::Varying) + av;
    decls_text(vs) + const_defines(sh.consts@)
        + struct_decl("struct"@, "_Vary"@, varyings, "VARY_"@, "  float4 hlsl_position : SV_POSITION;\n"@, ""@)
        + "//Vertex shader\n"@ + vtx + "//Pixel shader\n"@ + pix + vertex_wrapper(vars_in(vs, ShVarStore::Local), varyings, av)
        + pixel_wrapper(vars_in(vs, ShVarStore::Local), vars_in(vs, ShVarStore::Geometry), vars_in(vs, ShVarStore::Instance))
}

fn const_defines_string(cs: &Vec<ShConst>) -> (r: String)
    ensures
        r@ == const_defines(cs@),
{
    let mut out = String::new();
    let mut i: usize = 0;
    while i < cs.len()
        invariant
            i <= cs@.len(),
            out@ == const_defines(cs@.take(i as int)),
        decreases cs@.len() - i,
    {
        proof {
            assert(cs@.take(i as int + 1).drop_last() =~= cs@.take(i as int));
        }
        out.append("#define  ");
        out.append(cs[i].name.as_str());
        out.append(" (");
        out.append(cs[i].value.as_str());
        out.append(")\n");
        proof {
            assert(out@ =~= const_defines(cs@.take(i as int + 1)));
        }
        i += 1;
    }
    proof {
        assert(cs@.take(cs@.len() as int) =~= cs@);
    }
    out
}

fn auto_copies_string(av: &Vec<ShVar>) -> (r: String)
    ensures
        r@ == auto_copies(view_vars(av@)),
{
    let mut out = String::new();
    let mut i: usize = 0;
    while i < av.len()
        invariant
            i <= av@.len(),
            out@ == auto_copies(view_vars(av@).take(i as int)),
        decreases av@.len() - i,
    {
        proof {
            assert(view_vars(av@).take(i as int + 1).drop_last() =~= view_vars(av@).take(i as int));
        }
        out.append("       _vary.");
        out.append(av[i].name.as_str());
        out.append(" = ");
        if av[i].store == ShVarStore::Geometry {
            out.append("_geom.");
        } else {
            out.append("_inst.");
        }
        out.append(av[i].name.as_str());
        out.append(";\n");
        proof {
            assert(out@ =~= auto_copies(view_vars(av@).take(i as int + 1)));
        }
        i += 1;
    }
    proof {
        assert(view_vars(av@).take(av@.len() as int) =~= view_vars(av@));
    }
    out
}

fn decls_string(vars: &Vec<ShVar>) -> (r: String)
    ensures
        r@ == decls_text(view_vars(vars@)),
{
    let mut out = String::from_str("SamplerState DefaultTextureSampler{Filter = MIN_MAG_MIP_LINEAR;AddressU = Wrap;AddressV=Wrap;};\n");
    out.append(Cx::hlsl_assemble_texture_slots(&flat_vars(vars, ShVarStore::Texture)).as_str());
    out.append(Cx::hlsl_assemble_struct("struct", "_Geom", &flat_vars(vars, ShVarStore::Geometry), "GEOM_", "", "").as_str());
    out.append(Cx::hlsl_assemble_struct("struct", "_Inst", &flat_vars(vars, ShVarStore::Instance), "INST_", "", "").as_str());
    out.append(Cx::hlsl_assemble_struct("cbuffer", "_Uni_Cx", &flat_vars(vars, ShVarStore::UniformCx), "", "", ": register(b0)").as_str());
    out.append(Cx::hlsl_assemble_struct("cbuffer", "_Uni_Dl", &flat_vars(vars, ShVarStore::UniformDl), "", "", ": register(b1)").as_str());
    out.append(Cx::hlsl_assemble_struct("cbuffer", "_Uni_Dr", &flat_vars(vars, ShVarStore::Uniform), "", "", ": register(b2)").as_str());
    out.append(Cx::hlsl_assemble_struct("struct", "_Loc", &flat_vars(vars, ShVarStore::Local), "", "", "").as_str());
    proof {
        assert(out@ =~= decls_text(view_vars(vars@)));
    }
    out
}

/// Composes the HLSL source from its translated functions and promoted variables.
pub fn compose_hlsl(sh: &Shader, vtx: &str, pix: &str, av: &Vec<ShVar>) -> (r: String)
    ensures
        r@ == hlsl_text(sh, vtx@, pix@, view_vars(av@)),
{
    let ghost vs = view_vars(sh.vars@);
    let mut varyings = flat_vars(&sh.vars, ShVarStore::Varying);
    let ghost v0 = view_vars(varyings@);
    let mut i: usize = 0;
    while i < av.len()
        invariant
            i <= av@.len(),
            varyings@.len() == v0.len() + i,
            forall|j: int| 0 <= j < v0.len() ==> (#[trigger] varyings@[j])@ == v0[j],
            forall|j: int| 0 <= j < i ==> (#[trigger] varyings@[v0.len() + j])@ == av@[j]@,
        decreases av@.len() - i,
    {
        varyings.push(av[i].duplicate());
        i += 1;
    }
    proof {
        assert forall|j: int| 0 <= j < varyings@.len() implies view_vars(varyings@)[j] == (v0 + view_vars(av@))[j] by {
            if j >= v0.len() {
                assert(varyings@[v0.len() + (j - v0.len())]@ == av@[j - v0.len()]@);
            }
        }
        assert(view_vars(varyings@) =~= v0 + view_vars(av@));
    }
    let locals = flat_vars(&sh.vars, ShVarStore::Local);
    let mut out = decls_string(&sh.vars);
    out.append(const_defines_string(&sh.consts).as_str());
    out.append(Cx::hlsl_assemble_struct("struct", "_Vary", &varyings, "VARY_", "  float4 hlsl_position : SV_POSITION;\n", "").as_str());
    out.append("//Vertex shader\n");
    out.append(vtx);
    out.append("//Pixel shader\n");
    out.append(pix);
    let ghost mid = out@;
    let mut w = String::from_str("_Vary _vertex_shader(_Geom _geom, _Inst _inst, uint inst_id: SV_InstanceID){\n");
    w.append("  _Loc _loc = ");
    w.append(Cx::hlsl_init_struct(&locals, "").as_str());
    w.append(";\n");
    w.append("  _Vary _vary = ");
    w.append(Cx::hlsl_init_struct(&varyings, "float4(0.0,0.0,0.0,0.0),").as_str());
    w.append(";\n");
    w.append("  _vary.hlsl_position = _vertex(_loc, _vary, _geom, _inst);\n\n");
    w.append(auto_copies_string(av).as_str());
    w.append("       return _vary;\n};\n");
    proof {
        assert(w@ =~= vertex_wrapper(vars_in(vs, ShVarStore::Local), view_vars(varyings@), view_vars(av@)));
    }
    let mut p = String::from_str("float4 _pixel_shader(_Vary _vary) : SV_TARGET{\n");
    p.append("  _Loc _loc = ");
    p.append(Cx::hlsl_init_struct(&locals, "").as_str());
    p.append(";\n");
    p.append("  _Geom _geom = ");
    p.append(Cx::hlsl_init_struct(&flat_vars(&sh.vars, ShVarStore::Geometry), "").as_str());
    p.append(";\n");
    p.append("  _Inst _inst = ");
    p.append(Cx::hlsl_init_struct(&flat_vars(&sh.vars, ShVarStore::Instance), "").as_str());
    p.append(";\n");
    p.append("  return _pixel(_loc, _vary, _geom, _inst);\n};\n");
    proof {
        assert(p@ =~= pixel_wrapper(vars_in(vs, ShVarStore::Local), vars_in(vs, ShVarStore::Geometry), vars_in(vs, ShVarStore::Instance)));
    }
    out.append(w.as_str());
    out.append(p.as_str());
    proof {
        assert(out@ =~= hlsl_text(sh, vtx@, pix@, view_vars(av@)));
    }
    out
}

/// The output of the HLSL backend for one shader.
#[derive(Debug)]
pub struct AssembledHlslShader {
    pub geometry_slots: usize,
    pub instance_slots: usize,
    pub geometries: Vec<ShVar>,
    pub instances: Vec<ShVar>,
    pub uniforms_dr: Vec<ShVar>,
    pub uniforms_dl: Vec<ShVar>,
    pub uniforms_cx: Vec<ShVar>,
    pub texture_slots: Vec<ShVar>,
    pub rect_instance_props: RectInstanceProps,
    pub named_uniform_props: NamedProps,
    pub named_instance_props: NamedProps,
    pub named_geometry_props: NamedProps,
    pub hlsl: String,
}

/// Every type is supported, and the laid-out stores hold data types only.
pub open spec fn types_ok(sh: &Shader) -> bool {
    let vs = view_vars(sh.vars@);
    &&& forall|i: int| 0 <= i < sh.vars@.len() ==> is_supported_type(#[trigger] sh.vars@[i].ty@)
    &&& all_data(vars_in(vs, ShVarStore::Geometry))
    &&& all_data(vars_in(vs, ShVarStore::Instance))
    &&& all_data(vars_in(vs, ShVarStore::Uniform))
}

/// The `vertex` and `pixel` entry points, where both exist.
pub open spec fn entry_fns(sh: &Shader) -> Option<(usize, usize)> {
    match (first_fn(sh.fns@, "vertex"@), first_fn(sh.fns@, "pixel"@)) {
        (Some(v), Some(p)) => Some((v, p)),
        _ => None,
    }
}

/// The emission order of the functions reached from `vertex` then `pixel`,
/// and the functions each entry reaches; `None` on recursion.
pub open spec fn pass_orders(sh: &Shader) -> Option<(Seq<usize>, Seq<usize>, Seq<usize>)> {
    match entry_fns(sh) {
        None => None,
        Some(e) => match (
            emission_order(spec_graph(sh.fns@), seq![e.0, e.1]),
            emission_order(spec_graph(sh.fns@), seq![e.0]),
            emission_order(spec_graph(sh.fns@), seq![e.1]),
        ) {
            (Some(o), Some(vo), Some(po)) => Some((o, vo, po)),
            _ => None,
        },
    }
}

/// The translated vertex and pixel functions and the promoted variables.
pub open spec fn translation(sh: &Shader) -> Option<(Seq<char>, Seq<char>, Seq<ShVarView>)> {
    match pass_orders(sh) {
        None => None,
        Some(o) => emit_fns(sh, o.0, o.1, o.2, seq![]),
    }
}

/// `v` is declared with an unsupported type, or holds no data in a store
/// that is laid out.
pub open spec fn bad_var(v: ShVarView) -> bool {
    !is_supported_type(v.ty) || ((v.store == ShVarStore::Geometry || v.store == ShVarStore::Instance
        || v.store == ShVarStore::Uniform) && !is_data_type(v.ty))
}

/// `e` reports the first failing node of the first function, in emission
/// order, whose translation fails.
pub open spec fn fails_in_translation(sh: &Shader, e: SlErr) -> bool {
    pass_orders(sh) is Some && {
        let o = pass_orders(sh)->Some_0;
        exists|i: int, k: int| #[trigger] fails_at(sh, o.0, o.1, o.2, i, k, e)
    }
}

/// `e` names the construct at fault.
pub open spec fn error_names(sh: &Shader, e: SlErr) -> bool {
    match e {
        SlErr::UnsupportedType { name } => exists|i: int| 0 <= i < sh.vars@.len() && (#[trigger] sh.vars@[i]).name@ == name@ && bad_var(sh.vars@[i]@),
        SlErr::UnknownIntrinsic { name } => ((name@ == "vertex"@ || name@ == "pixel"@) && first_fn(sh.fns@, name@) is None) || fails_in_translation(sh, e),
        SlErr::UnresolvedVariable { .. } => fails_in_translation(sh, e),
        SlErr::RecursiveCallDetected { name } => exists|j: usize| (j as int) < sh.fns@.len() && (#[trigger] sh.fns@[j as int]).name@ == name@
            && fn_on_cycle(sh.fns@, j),
        _ => false,
    }
}

/// What a successful assembly holds.
pub open spec fn assembled_ok(sh: &Shader, a: &AssembledHlslShader) -> bool {
    let vs = view_vars(sh.vars@);
    let t = translation(sh)->Some_0;
    &&& view_vars(a.geometries@) == vars_in(vs, ShVarStore::Geometry)
    &&& view_vars(a.instances@) == vars_in(vs, ShVarStore::Instance)
    &&& view_vars(a.uniforms_dr@) == vars_in(vs, ShVarStore::Uniform)
    &&& view_vars(a.uniforms_dl@) == vars_in(vs, ShVarStore::UniformDl)
    &&& view_vars(a.uniforms_cx@) == vars_in(vs, ShVarStore::UniformCx)
    &&& view_vars(a.texture_slots@) == vars_in(vs, ShVarStore::Texture)
    &&& all_data(vars_in(vs, ShVarStore::Geometry))
    &&& all_data(vars_in(vs, ShVarStore::Instance))
    &&& all_data(vars_in(vs, ShVarStore::Uniform))
    &&& a.geometry_slots == slot_sum(vars_in(vs, ShVarStore::Geometry))
    &&& a.instance_slots == slot_sum(vars_in(vs, ShVarStore::Instance))
    &&& lays_out(&a.named_geometry_props, vars_in(vs, ShVarStore::Geometry))
    &&& lays_out(&a.named_instance_props, vars_in(vs, ShVarStore::Instance))
    &&& lays_out(&a.named_uniform_props, vars_in(vs, ShVarStore::Uniform))
    &&& a.rect_instance_props.x == float_offset(a.named_instance_props.props@, "x"@)
    &&& a.rect_instance_props.y == float_offset(a.named_instance_props.props@, "y"@)
    &&& a.rect_instance_props.w == float_offset(a.named_instance_props.props@, "w"@)
    &&& a.rect_instance_props.h == float_offset(a.named_instance_props.props@, "h"@)
    &&& translation(sh) is Some
    &&& pass_orders(sh)->Some_0.0.no_duplicates()
    &&& a.hlsl@ == hlsl_text(sh, t.0, t.1, t.2)
    &&& unique_names(t.2)
    &&& all_inputs(t.2)
    &&& forall|n: Seq<char>| #[trigger] pixel_reads(sh, pass_orders(sh)->Some_0.0, pass_orders(sh)->Some_0.1, n) ==> has_name(t.2, n)
    &&& forall|j: int| 0 <= j < t.2.len() ==> pixel_reads(sh, pass_orders(sh)->Some_0.0, pass_orders(sh)->Some_0.1, #[trigger] t.2[j].name)
}

/// An entry of the variables of one store is a variable of that store.
pub proof fn lemma_vars_in_member(vs: Seq<ShVarView>, store: ShVarStore, i: int)
    requires
        0 <= i < vars_in(vs, store).len(),
    ensures
        exists|j: int| 0 <= j < vs.len() && vs[j] == vars_in(vs, store)[i],
        vars_in(vs, store)[i].store == store,
    decreases vs.len(),
{
    let rest = vars_in(vs.drop_last(), store);
    if i < rest.len() {
        lemma_vars_in_member(vs.drop_last(), store, i);
        let j = choose|j: int| 0 <= j < vs.drop_last().len() && vs.drop_last()[j] == rest[i];
        assert(vs[j] == vs.drop_last()[j]);
    } else {
        assert(vs[vs.len() - 1] == vs.last());
    }
}

pub proof fn lemma_vars_in_len(vs: Seq<ShVarView>, store: ShVarStore)
    ensures
        vars_in(vs, store).len() <= vs.len(),
    decreases vs.len(),
{
    if vs.len() > 0 {
        lemma_vars_in_len(vs.drop_last(), store);
    }
}

proof fn lemma_bad_in_store(sh: &Shader, store: ShVarStore, vars: Seq<ShVar>, name: Seq<char>)
    requires
        store == ShVarStore::Geometry || store == ShVarStore::Instance || store == ShVarStore::Uniform,
        view_vars(vars) == vars_in(view_vars(sh.vars@), store),
        exists|i: int| 0 <= i < vars.len() && (#[trigger] vars[i]).name@ == name && !is_data_type(vars[i].ty@),
    ensures
        exists|i: int| 0 <= i < sh.vars@.len() && (#[trigger] sh.vars@[i]).name@ == name && bad_var(sh.vars@[i]@),
{
    let vs = view_vars(sh.vars@);
    let i = choose|i: int| 0 <= i < vars.len() && (#[trigger] vars[i]).name@ == name && !is_data_type(vars[i].ty@);
    assert(view_vars(vars)[i] == vars[i]@);
    lemma_vars_in_member(vs, store, i);
    let j = choose|j: int| 0 <= j < vs.len() && vs[j] == vars_in(vs, store)[i];
    assert(sh.vars@[j]@ == vs[j]);
}

/// Checks that every declared type is a supported primitive.
pub fn check_var_types(vars: &Vec<ShVar>) -> (r: Result<(), SlErr>)
    ensures
        r is Ok <==> forall|i: int| 0 <= i < vars@.len() ==> is_supported_type(#[trigger] vars@[i].ty@),
        r matches Err(e) ==> e matches SlErr::UnsupportedType { name } && exists|i: int| 0 <= i < vars@.len()
            && (#[trigger] vars@[i]).name@ == name@ && !is_supported_type(vars@[i].ty@),
{
    let mut i: usize = 0;
    while i < vars.len()
        invariant
            i <= vars@.len(),
            forall|j: int| 0 <= j < i ==> is_supported_type(#[trigger] vars@[j].ty@),
        decreases vars@.len() - i,
    {
        let t = vars[i].ty.as_str();
        if crate::shader::slots_of_type(t) == 0 && !str_eq(t, "texture2d") {
            let name = vars[i].name.clone();
            proof {
                assert(vars@[i as int].name@ == name@);
            }
            return Err(SlErr::UnsupportedType { name });
        }
        i += 1;
    }
    Ok(())
}

/// The promoted variables of an emission are distinct by name and are all
/// geometry or instance variables.
pub proof fn lemma_emit_unique(sh: &Shader, order: Seq<usize>, vset: Seq<usize>, pset: Seq<usize>, av0: Seq<ShVarView>)
    requires
        unique_names(av0),
        all_inputs(av0),
        emit_fns(sh, order, vset, pset, av0) is Some,
    ensures
        unique_names(emit_fns(sh, order, vset, pset, av0)->Some_0.2),
        all_inputs(emit_fns(sh, order, vset, pset, av0)->Some_0.2),
    decreases order.len(),
{
    if order.len() > 0 {
        lemma_emit_unique(sh, order.drop_last(), vset, pset, av0);
        let acc = emit_fns(sh, order.drop_last(), vset, pset, av0)->Some_0;
        let f = sh.fns@[order.last() as int];
        lemma_tr_nodes_unique(env_for(pass_for(order.last(), vset, pset), sh, &f), acc.2, node_views(f.nodes@));
    }
}

/// A chain of calls between user functions.
pub open spec fn fn_chain(fns: Seq<ShFn>, p: Seq<usize>) -> bool {
    forall|i: int| 0 <= i < p.len() - 1 ==> #[trigger] fn_calls(fns, p[i] as int, p[i + 1] as int)
}

/// Function `c` calls into itself through one or more calls.
pub open spec fn fn_on_cycle(fns: Seq<ShFn>, c: usize) -> bool {
    exists|p: Seq<usize>| #[trigger] fn_chain(fns, p) && p.len() >= 2 && p[0] == c && p.last() == c
}

proof fn lemma_fn_cycle(sh: &Shader, g: Seq<Vec<usize>>, c: usize)
    requires
        forall|a: usize, b: usize| #[trigger] calls(g, a, b) <==> fn_calls(sh.fns@, a as int, b as int),
        crate::resolve::on_cycle(g, c),
    ensures
        fn_on_cycle(sh.fns@, c),
        (c as int) < sh.fns@.len(),
{
    let p = choose|p: Seq<usize>| #[trigger] crate::resolve::is_path(g, p) && p.len() >= 2 && p[0] == c && p.last() == c;
    assert forall|i: int| 0 <= i < p.len() - 1 implies #[trigger] fn_calls(sh.fns@, p[i] as int, p[i + 1] as int) by {
        assert(calls(g, p[i], p[i + 1]));
    }
    assert(fn_chain(sh.fns@, p));
    let z: int = 0;
    assert(fn_calls(sh.fns@, p[z] as int, p[z + 1] as int));
}

impl Cx {
    /// Assembles the HLSL source of a shader and its binding metadata. Each
    /// function reached from `vertex` or `pixel` is defined once, in the
    /// resolver's order from `vertex` then `pixel`: in the vertex pass when
    /// `vertex` reaches it, else in the pixel pass. A function both reach is
    /// shared, and may not read geometry or instance inputs, which the pixel
    /// stage lacks (`UnresolvedVariable`).
    #[verifier::rlimit(100)]
    pub fn hlsl_assemble_shader(sh: &Shader) -> (r: Result<AssembledHlslShader, SlErr>)
        requires
            sh.wf(),
            sh.vars@.len() <= usize::MAX / 16,
        ensures
            r is Ok <==> types_ok(sh) && translation(sh) is Some,
            !types_ok(sh) ==> (r matches Err(e) && e is UnsupportedType),
            types_ok(sh) && entry_fns(sh) is None ==> (r matches Err(e) && e is UnknownIntrinsic),
            types_ok(sh) && entry_fns(sh) is Some && pass_orders(sh) is None ==> (r matches Err(e) && e is RecursiveCallDetected),
            types_ok(sh) && pass_orders(sh) is Some && translation(sh) is None ==> (r matches Err(e) && (e is UnresolvedVariable
                || e is UnknownIntrinsic)),
            r matches Err(e) ==> error_names(sh, e),
            r matches Ok(a) ==> assembled_ok(sh, &a),
    {
        let ghost vs = view_vars(sh.vars@);
        match check_var_types(&sh.vars) {
            Ok(()) => {},
            Err(e) => {
                return Err(e);
            },
        }
        let texture_slots = flat_vars(&sh.vars, ShVarStore::Texture);
        let geometries = flat_vars(&sh.vars, ShVarStore::Geometry);
        let instances = flat_vars(&sh.vars, ShVarStore::Instance);
        let uniforms_cx = flat_vars(&sh.vars, ShVarStore::UniformCx);
        let uniforms_dl = flat_vars(&sh.vars, ShVarStore::UniformDl);
        let uniforms_dr = flat_vars(&sh.vars, ShVarStore::Uniform);
        proof {
            lemma_vars_in_len(vs, ShVarStore::Geometry);
            lemma_vars_in_len(vs, ShVarStore::Instance);
            lemma_vars_in_len(vs, ShVarStore::Uniform);
        }
        let geometry_slots = compute_slot_total(&geometries);
        let instance_slots = compute_slot_total(&instances);
        let named_geometry_props = match NamedProps::construct(&geometries) {
            Ok(n) => n,
            Err(e) => {
                proof {
                    if let SlErr::UnsupportedType { ref name } = e {
                        lemma_bad_in_store(sh, ShVarStore::Geometry, geometries@, name@);
                    }
                }
                return Err(e);
            },
        };
        let named_instance_props = match NamedProps::construct(&instances) {
            Ok(n) => n,
            Err(e) => {
                proof {
                    if let SlErr::UnsupportedType { ref name } = e {
                        lemma_bad_in_store(sh, ShVarStore::Instance, instances@, name@);
                    }
                }
                return Err(e);
            },
        };
        let named_uniform_props = match NamedProps::construct(&uniforms_dr) {
            Ok(n) => n,
            Err(e) => {
                proof {
                    if let SlErr::UnsupportedType { ref name } = e {
                        lemma_bad_in_store(sh, ShVarStore::Uniform, uniforms_dr@, name@);
                    }
                }
                return Err(e);
            },
        };
        let rect_instance_props = RectInstanceProps::construct(&named_instance_props);
        proof {
            assert(types_ok(sh));
        }
        let g = call_graph(&sh.fns);
        let v = match find_fn(&sh.fns, "vertex") {
            Some(v) => v,
            None => {
                proof {
                    if exists|w: usize| entry_index(sh.fns@, "vertex"@, w) {
                        let w = choose|w: usize| entry_index(sh.fns@, "vertex"@, w);
                        assert(sh.fns@[w as int].name@ == "vertex"@);
                    }
                }
                let name = String::from_str("vertex");
                return Err(SlErr::UnknownIntrinsic { name });
            },
        };
        let p = match find_fn(&sh.fns, "pixel") {
            Some(p) => p,
            None => {
                proof {
                    if exists|w: usize| entry_index(sh.fns@, "pixel"@, w) {
                        let w = choose|w: usize| entry_index(sh.fns@, "pixel"@, w);
                        assert(sh.fns@[w as int].name@ == "pixel"@);
                    }
                }
                let name = String::from_str("pixel");
                return Err(SlErr::UnknownIntrinsic { name });
            },
        };
        proof {
            lemma_first_fn(sh.fns@, "vertex"@, v);
            lemma_first_fn(sh.fns@, "pixel"@, p);
            assert(entry_fns(sh) == Some((v, p)));
        }
        let entries = vec![v, p];
        let ventries = vec![v];
        let pentries = vec![p];
        proof {
            assert(entries@ =~= seq![v, p]);
            assert(ventries@ =~= seq![v]);
            assert(pentries@ =~= seq![p]);
        }
        let order = match resolve_fn_order(&g, &entries) {
            Ok(o) => o,
            Err(c) => {
                proof {
                    lemma_fn_cycle(sh, g@, c);
                }
                return Err(SlErr::RecursiveCallDetected { name: sh.fns[c].name.clone() });
            },
        };
        let vorder = match resolve_fn_order(&g, &ventries) {
            Ok(o) => o,
            Err(c) => {
                proof {
                    lemma_fn_cycle(sh, g@, c);
                }
                return Err(SlErr::RecursiveCallDetected { name: sh.fns[c].name.clone() });
            },
        };
        let porder = match resolve_fn_order(&g, &pentries) {
            Ok(o) => o,
            Err(c) => {
                proof {
                    lemma_fn_cycle(sh, g@, c);
                }
                return Err(SlErr::RecursiveCallDetected { name: sh.fns[c].name.clone() });
            },
        };
        proof {
            assert(pass_orders(sh) == Some((order@, vorder@, porder@)));
            lemma_order_in_range(g@, entries@, order@);
        }
        let (vtx, pix, av) = match assemble_fns(sh, &order, &vorder, &porder) {
            Ok(t) => t,
            Err(e) => {
                return Err(e);
            },
        };
        let hlsl = compose_hlsl(sh, vtx.as_str(), pix.as_str(), &av);
        proof {
            lemma_emit_unique(sh, order@, vorder@, porder@, seq![]);
            lemma_emit_promotes(sh, order@, vorder@, porder@, seq![]);
            lemma_emit_promotes_only_reads(sh, order@, vorder@, porder@);
            assert(translation(sh) == Some((vtx@, pix@, view_vars(av@))));
        }
        Ok(AssembledHlslShader {
            geometry_slots,
            instance_slots,
            geometries,
            instances,
            uniforms_dr,
            uniforms_dl,
            uniforms_cx,
            texture_slots,
            rect_instance_props,
            named_uniform_props,
            named_instance_props,
            named_geometry_props,
            hlsl,
        })
    }
}

proof fn lemma_order_in_range(g: Seq<Vec<usize>>, entries: Seq<usize>, order: Seq<usize>)
    requires
        graph_wf(g),
        forall|i: int| 0 <= i < entries.len() ==> (entries[i] as int) < g.len(),
        forall|i: int| 0 <= i < order.len() ==> crate::resolve::reachable(g, entries, #[trigger] order[i]),
    ensures
        forall|i: int| 0 <= i < order.len() ==> (#[trigger] order[i] as int) < g.len(),
{
    assert forall|i: int| 0 <= i < order.len() implies (#[trigger] order[i] as int) < g.len() by {
        assert(crate::resolve::reachable(g, entries, order[i]));
        let k = choose|k: int| 0 <= k < entries.len() && #[trigger] crate::resolve::reaches(g, entries[k], order[i]);
        let path = choose|path: Seq<usize>| #[trigger] crate::resolve::is_path(g, path) && path[0] == entries[k] && path.last() == order[i];
        if path.len() >= 2 {
            let j = path.len() - 2;
            assert(calls(g, path[j], path[j + 1]));
            let a = path[j];
            let w = choose|w: int| 0 <= w < g[a as int]@.len() && g[a as int]@[w] == path[j + 1];
            assert((g[a as int]@[w] as int) < g.len());
        }
    }
}

/// Assembly is deterministic: any two successful assemblies of one shader
/// give byte-identical source and the same slot counts.
pub proof fn lemma_assembly_deterministic(sh: &Shader, a1: &AssembledHlslShader, a2: &AssembledHlslShader)
    requires
        assembled_ok(sh, a1),
        assembled_ok(sh, a2),
    ensures
        a1.hlsl@ == a2.hlsl@,
        a1.geometry_slots == a2.geometry_slots,
        a1.instance_slots == a2.instance_slots,
{
}

/// A function translated in the pixel pass reads the geometry or instance
/// variable named `n`.
pub open spec fn pixel_reads(sh: &Shader, order: Seq<usize>, vset: Seq<usize>, n: Seq<char>) -> bool {
    exists|i: int, k: int| 0 <= i < order.len() && !vset.contains(order[i]) && 0 <= k < sh.fns@[order[i] as int].nodes@.len()
        && #[trigger] reads_input(env_for(pixel_pass(), sh, &sh.fns@[order[i] as int]), sh.fns@[order[i] as int].nodes@[k]@, n)
}

/// Every geometry or instance variable read in the pixel stage is among the
/// promoted variables of an emission.
pub proof fn lemma_emit_promotes(sh: &Shader, order: Seq<usize>, vset: Seq<usize>, pset: Seq<usize>, av0: Seq<ShVarView>)
    requires
        emit_fns(sh, order, vset, pset, av0) is Some,
    ensures
        forall|n: Seq<char>| has_name(av0, n) ==> has_name(emit_fns(sh, order, vset, pset, av0)->Some_0.2, n),
        forall|n: Seq<char>| pixel_reads(sh, order, vset, n) ==> has_name(emit_fns(sh, order, vset, pset, av0)->Some_0.2, n),
    decreases order.len(),
{
    if order.len() > 0 {
        let init = order.drop_last();
        lemma_emit_promotes(sh, init, vset, pset, av0);
        let acc = emit_fns(sh, init, vset, pset, av0)->Some_0;
        let last = order.last();
        let f = sh.fns@[last as int];
        let env = env_for(pass_for(last, vset, pset), sh, &f);
        lemma_tr_nodes_promotes(env, acc.2, node_views(f.nodes@));
        let out = emit_fns(sh, order, vset, pset, av0)->Some_0.2;
        assert forall|n: Seq<char>| pixel_reads(sh, order, vset, n) implies has_name(out, n) by {
            let (i, k) = choose|i: int, k: int| 0 <= i < order.len() && !vset.contains(order[i]) && 0 <= k < sh.fns@[order[i] as int].nodes@.len()
                && #[trigger] reads_input(env_for(pixel_pass(), sh, &sh.fns@[order[i] as int]), sh.fns@[order[i] as int].nodes@[k]@, n);
            if i < init.len() {
                assert(init[i] == order[i]);
                assert(pixel_reads(sh, init, vset, n));
            } else {
                assert(order[i] == last);
                assert(node_views(f.nodes@)[k] == f.nodes@[k]@);
                assert(reads_input(env, node_views(f.nodes@)[k], n));
            }
        }
    }
}

/// An emission promotes only variables that the pixel stage reads.
pub proof fn lemma_emit_promotes_only_reads(sh: &Shader, order: Seq<usize>, vset: Seq<usize>, pset: Seq<usize>)
    requires
        emit_fns(sh, order, vset, pset, seq![]) is Some,
    ensures
        forall|j: int| 0 <= j < emit_fns(sh, order, vset, pset, seq![])->Some_0.2.len() ==> pixel_reads(sh, order, vset,
            #[trigger] emit_fns(sh, order, vset, pset, seq![])->Some_0.2[j].name),
    decreases order.len(),
{
    if order.len() > 0 {
        let init = order.drop_last();
        lemma_emit_promotes_only_reads(sh, init, vset, pset);
        let acc = emit_fns(sh, init, vset, pset, seq![])->Some_0;
        let last = order.last();
        let f = sh.fns@[last as int];
        let p = pass_for(last, vset, pset);
        let env = env_for(p, sh, &f);
        lemma_tr_nodes_promotes_only_reads(env, acc.2, node_views(f.nodes@));
        let out = emit_fns(sh, order, vset, pset, seq![])->Some_0.2;
        assert forall|j: int| 0 <= j < out.len() implies pixel_reads(sh, order, vset, #[trigger] out[j].name) by {
            let n = out[j].name;
            if has_name(acc.2, n) {
                let w = choose|w: int| 0 <= w < acc.2.len() && (#[trigger] acc.2[w]).name == n;
                assert(pixel_reads(sh, init, vset, acc.2[w].name));
                let (i, k) = choose|i: int, k: int| 0 <= i < init.len() && !vset.contains(init[i]) && 0 <= k < sh.fns@[init[i] as int].nodes@.len()
                    && #[trigger] reads_input(env_for(pixel_pass(), sh, &sh.fns@[init[i] as int]), sh.fns@[init[i] as int].nodes@[k]@, n);
                assert(init[i] == order[i]);
            } else {
                let k = choose|k: int| 0 <= k < node_views(f.nodes@).len() && #[trigger] reads_input(env, node_views(f.nodes@)[k], n);
                assert(env.target == SlTarget::Pixel);
                assert(!vset.contains(last));
                assert(node_views(f.nodes@)[k] == f.nodes@[k]@);
                assert(order[order.len() - 1] == last);
                assert(reads_input(env_for(pixel_pass(), sh, &sh.fns@[order[order.len() - 1] as int]), sh.fns@[order[order.len() - 1] as int].nodes@[k]@, n));
            }
        }
    }
}

} // verus!
