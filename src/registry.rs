//! The pipeline compiler's side of the library: the vertex input layout of
//! an assembled shader, and the registry of compiled shaders, indexed by id.
//! The platform compiler itself is a collaborator that hands back handles.

use vstd::prelude::*;
use crate::assemble::{AssembledHlslShader, assembled_ok, entry_fns, error_names, lemma_vars_in_member, pass_orders, translation, types_ok};
use crate::ast::Shader;
use crate::layout::{InputElement, NamedProps, RectInstanceProps, all_data, describes, input_elements, lays_out, format_of};
use crate::shader::{ShVarStore, ShVarView, SlErr, is_data_type, type_slots, vars_in, view_vars};

verus! {

/// The handles the platform compiler returned for one shader.
#[derive(Clone, Copy, Debug, PartialEq, Eq, Structural)]
pub struct StageHandles {
    pub vertex_shader: u64,
    pub pixel_shader: u64,
    pub input_layout: u64,
}

/// An assembled shader with the input layout its vertex stage needs,
/// ready for the platform compiler.
#[derive(Debug)]
pub struct PreparedShader {
    pub assembled: AssembledHlslShader,
    pub layout: Vec<InputElement>,
}

/// A compiled shader program and its binding metadata.
#[derive(Debug)]
pub struct CompiledShader {
    pub shader_id: usize,
    pub geometry_slots: usize,
    pub instance_slots: usize,
    pub rect_instance_props: RectInstanceProps,
    pub named_uniform_props: NamedProps,
    pub named_instance_props: NamedProps,
    pub handles: StageHandles,
    pub hlsl: String,
}

/// The graphics context's shaders and the registry of compiled ones.
#[derive(Debug)]
pub struct Cx {
    pub shaders: Vec<Shader>,
    pub compiled_shaders: Vec<CompiledShader>,
}

/// Geometry elements then instance elements, each describing its variable.
pub open spec fn layout_of(a: &AssembledHlslShader, layout: Seq<InputElement>) -> bool {
    let g = a.named_geometry_props.props@;
    let n = a.named_instance_props.props@;
    &&& layout.len() == g.len() + n.len()
    &&& forall|i: int| 0 <= i < g.len() ==> describes(#[trigger] &layout[i], &g[i], false)
    &&& forall|i: int| 0 <= i < n.len() ==> describes(#[trigger] &layout[g.len() + i], &n[i], true)
}

/// The number of successful outcomes.
pub open spec fn count_ok(v: Seq<Result<CompiledShader, SlErr>>) -> nat
    decreases v.len(),
{
    if v.len() == 0 {
        0
    } else {
        count_ok(v.drop_last()) + if v.last() is Ok { 1nat } else { 0nat }
    }
}

/// The registry entry holds the outcome's artifact.
pub open spec fn holds_artifact(c: &CompiledShader, o: &CompiledShader) -> bool {
    &&& c.geometry_slots == o.geometry_slots
    &&& c.instance_slots == o.instance_slots
    &&& c.handles == o.handles
    &&& c.rect_instance_props == o.rect_instance_props
    &&& c.named_uniform_props == o.named_uniform_props
    &&& c.named_instance_props == o.named_instance_props
    &&& c.hlsl == o.hlsl
}

/// `e` names a geometry or instance variable wider than four slots.
pub open spec fn wide_input(sh: &Shader, e: SlErr) -> bool {
    e matches SlErr::UnsupportedSlotWidth { name, slots } && slots > 4 && exists|i: int| 0 <= i < sh.vars@.len()
        && (#[trigger] sh.vars@[i]).name@ == name@ && type_slots(sh.vars@[i].ty@) == slots
        && (sh.vars@[i].store == ShVarStore::Geometry || sh.vars@[i].store == ShVarStore::Instance)
}

/// No geometry or instance variable is wider than four slots.
pub open spec fn narrow_inputs(sh: &Shader) -> bool {
    let vs = view_vars(sh.vars@);
    &&& forall|i: int| 0 <= i < vars_in(vs, ShVarStore::Geometry).len() ==> type_slots(
        #[trigger] vars_in(vs, ShVarStore::Geometry)[i].ty,
    ) <= 4
    &&& forall|i: int| 0 <= i < vars_in(vs, ShVarStore::Instance).len() ==> type_slots(
        #[trigger] vars_in(vs, ShVarStore::Instance)[i].ty,
    ) <= 4
}

proof fn lemma_wide_named(sh: &Shader, np: &NamedProps, store: ShVarStore, e: SlErr)
    requires
        store == ShVarStore::Geometry || store == ShVarStore::Instance,
        lays_out(np, vars_in(view_vars(sh.vars@), store)),
        all_data(vars_in(view_vars(sh.vars@), store)),
        e matches SlErr::UnsupportedSlotWidth { name, slots } && exists|i: int| 0 <= i < np.props@.len()
            && (#[trigger] np.props@[i]).name@ == name@ && np.props@[i].slots == slots && format_of(slots as nat) is None,
    ensures
        wide_input(sh, e),
        !narrow_inputs(sh),
{
    let vs = view_vars(sh.vars@);
    if let SlErr::UnsupportedSlotWidth { name, slots } = e {
        let i = choose|i: int| 0 <= i < np.props@.len() && (#[trigger] np.props@[i]).name@ == name@ && np.props@[i].slots == slots
            && format_of(slots as nat) is None;
        assert(is_data_type(vars_in(vs, store)[i].ty));
        lemma_vars_in_member(vs, store, i);
        let j = choose|j: int| 0 <= j < vs.len() && vs[j] == vars_in(vs, store)[i];
        assert(sh.vars@[j]@ == vs[j]);
        assert(type_slots(vars_in(vs, store)[i].ty) > 4);
    }
}

proof fn lemma_formats_narrow(np: &NamedProps, vs: Seq<ShVarView>)
    requires
        lays_out(np, vs),
        forall|i: int| 0 <= i < np.props@.len() ==> format_of((#[trigger] np.props@[i]).slots as nat) is Some,
    ensures
        forall|i: int| 0 <= i < vs.len() ==> type_slots(#[trigger] vs[i].ty) <= 4,
{
    assert forall|i: int| 0 <= i < vs.len() implies type_slots(#[trigger] vs[i].ty) <= 4 by {
        assert(format_of(np.props@[i].slots as nat) is Some);
    }
}

proof fn lemma_narrow_formats(np: &NamedProps, vs: Seq<ShVarView>)
    requires
        lays_out(np, vs),
        all_data(vs),
        forall|i: int| 0 <= i < vs.len() ==> type_slots(#[trigger] vs[i].ty) <= 4,
    ensures
        forall|i: int| 0 <= i < np.props@.len() ==> format_of((#[trigger] np.props@[i]).slots as nat) is Some,
{
    assert forall|i: int| 0 <= i < np.props@.len() implies format_of((#[trigger] np.props@[i]).slots as nat) is Some by {
        assert(type_slots(vs[i].ty) <= 4);
        assert(is_data_type(vs[i].ty));
    }
}

impl PreparedShader {
    /// Packages the prepared shader with the platform's handles, not yet registered.
    pub fn into_compiled(self, handles: StageHandles) -> (r: CompiledShader)
        ensures
            r.shader_id == 0,
            r.geometry_slots == self.assembled.geometry_slots,
            r.instance_slots == self.assembled.instance_slots,
            r.handles == handles,
            r.rect_instance_props == self.assembled.rect_instance_props,
            r.named_uniform_props == self.assembled.named_uniform_props,
            r.named_instance_props == self.assembled.named_instance_props,
            r.hlsl == self.assembled.hlsl,
    {
        CompiledShader {
            shader_id: 0,
            geometry_slots: self.assembled.geometry_slots,
            instance_slots: self.assembled.instance_slots,
            rect_instance_props: self.assembled.rect_instance_props,
            named_uniform_props: self.assembled.named_uniform_props,
            named_instance_props: self.assembled.named_instance_props,
            handles,
            hlsl: self.assembled.hlsl,
        }
    }
}

impl Cx {
    pub fn new(shaders: Vec<Shader>) -> (r: Cx)
        ensures
            r.shaders@ == shaders@,
            r.compiled_shaders@.len() == 0,
            r.registry_wf(),
    {
        Cx { shaders, compiled_shaders: Vec::new() }
    }

    /// Each compiled shader sits at the index of its id.
    pub open spec fn registry_wf(&self) -> bool {
        forall|i: int| 0 <= i < self.compiled_shaders@.len() ==> (#[trigger] self.compiled_shaders@[i]).shader_id == i
    }

    /// Everything the platform compiler needs for a shader: its HLSL source
    /// and its vertex input layout (geometry in buffer 0, instances in buffer 1).
    /// Fails as the assembler does, or with `UnsupportedSlotWidth` for an
    /// input variable of more than four slots.
    #[verifier::rlimit(40)]
    pub fn hlsl_compile_shader(sh: &Shader) -> (r: Result<PreparedShader, SlErr>)
        requires
            sh.wf(),
            sh.vars@.len() <= usize::MAX / 64,
        ensures
            r is Ok <==> types_ok(sh) && translation(sh) is Some && narrow_inputs(sh),
            r matches Ok(p) ==> layout_of(&p.assembled, p.layout@) && assembled_ok(sh, &p.assembled),
            !types_ok(sh) ==> (r matches Err(e) && e is UnsupportedType),
            types_ok(sh) && entry_fns(sh) is None ==> (r matches Err(e) && e is UnknownIntrinsic),
            types_ok(sh) && entry_fns(sh) is Some && pass_orders(sh) is None ==> (r matches Err(e) && e is RecursiveCallDetected),
            types_ok(sh) && pass_orders(sh) is Some && translation(sh) is None ==> (r matches Err(e) && (e is UnresolvedVariable
                || e is UnknownIntrinsic)),
            types_ok(sh) && translation(sh) is Some && !narrow_inputs(sh) ==> (r matches Err(e) && e is UnsupportedSlotWidth),
            r matches Err(e) ==> error_names(sh, e) || wide_input(sh, e),
    {
        let assembled = match Cx::hlsl_assemble_shader(sh) {
            Ok(a) => a,
            Err(e) => {
                return Err(e);
            },
        };
        proof {
            let vs = crate::shader::view_vars(sh.vars@);
            crate::assemble::lemma_vars_in_len(vs, crate::shader::ShVarStore::Geometry);
            crate::assemble::lemma_vars_in_len(vs, crate::shader::ShVarStore::Instance);
            assert(lays_out(&assembled.named_geometry_props, crate::shader::vars_in(vs, crate::shader::ShVarStore::Geometry)));
            assert(lays_out(&assembled.named_instance_props, crate::shader::vars_in(vs, crate::shader::ShVarStore::Instance)));
            crate::layout::lemma_layout_contiguous_bound(&assembled.named_geometry_props);
            crate::layout::lemma_layout_contiguous_bound(&assembled.named_instance_props);
        }
        proof {
            let vs = view_vars(sh.vars@);
            if narrow_inputs(sh) {
                lemma_narrow_formats(&assembled.named_geometry_props, vars_in(vs, ShVarStore::Geometry));
                lemma_narrow_formats(&assembled.named_instance_props, vars_in(vs, ShVarStore::Instance));
            }
        }
        let mut layout = match input_elements(&assembled.named_geometry_props, false) {
            Ok(l) => l,
            Err(e) => {
                proof {
                    lemma_wide_named(sh, &assembled.named_geometry_props, ShVarStore::Geometry, e);
                }
                return Err(e);
            },
        };
        let mut inst = match input_elements(&assembled.named_instance_props, true) {
            Ok(l) => l,
            Err(e) => {
                proof {
                    lemma_wide_named(sh, &assembled.named_instance_props, ShVarStore::Instance, e);
                }
                return Err(e);
            },
        };
        let ghost g = layout@;
        let ghost n = inst@;
        layout.append(&mut inst);
        proof {
            let vs = view_vars(sh.vars@);
            lemma_formats_narrow(&assembled.named_geometry_props, vars_in(vs, ShVarStore::Geometry));
            lemma_formats_narrow(&assembled.named_instance_props, vars_in(vs, ShVarStore::Instance));
            assert(narrow_inputs(sh));
            assert(layout@ == g + n);
            assert forall|i: int| 0 <= i < n.len() implies describes(#[trigger] &layout@[g.len() + i], &assembled.named_instance_props.props@[i], true) by {
                assert(layout@[g.len() + i] == n[i]);
            }
        }
        Ok(PreparedShader { assembled, layout })
    }

    /// Registers a compiled shader under the next id.
    pub fn register_compiled(&mut self, shader: CompiledShader) -> (id: usize)
        requires
            old(self).registry_wf(),
            old(self).compiled_shaders@.len() < usize::MAX,
        ensures
            final(self).registry_wf(),
            id == old(self).compiled_shaders@.len(),
            final(self).compiled_shaders@.len() == id + 1,
            forall|i: int| 0 <= i < id ==> final(self).compiled_shaders@[i] == old(self).compiled_shaders@[i],
            holds_artifact(&final(self).compiled_shaders@[id as int], &shader),
            final(self).shaders == old(self).shaders,
    {
        let id = self.compiled_shaders.len();
        let mut shader = shader;
        shader.shader_id = id;
        self.compiled_shaders.push(shader);
        id
    }

    /// Registers each successfully compiled shader, in order, under the next
    /// id, and reports each failure in its place: a failure never keeps a
    /// later shader from being registered.
    pub fn hlsl_compile_all_shaders(&mut self, outcomes: Vec<Result<CompiledShader, SlErr>>) -> (r: Vec<Result<usize, SlErr>>)
        requires
            old(self).registry_wf(),
            old(self).compiled_shaders@.len() + outcomes@.len() < usize::MAX,
        ensures
            final(self).registry_wf(),
            final(self).shaders == old(self).shaders,
            r@.len() == outcomes@.len(),
            final(self).compiled_shaders@.len() == old(self).compiled_shaders@.len() + count_ok(outcomes@),
            forall|i: int| 0 <= i < old(self).compiled_shaders@.len() ==> final(self).compiled_shaders@[i] == old(self).compiled_shaders@[i],
            forall|i: int| 0 <= i < outcomes@.len() ==> (#[trigger] r@[i] is Ok <==> outcomes@[i] is Ok),
            forall|i: int| 0 <= i < outcomes@.len() ==> (#[trigger] r@[i] matches Err(e) ==> outcomes@[i] == Err::<CompiledShader, SlErr>(e)),
            forall|i: int| 0 <= i < outcomes@.len() ==> (#[trigger] r@[i] matches Ok(id) ==> {
                &&& id == old(self).compiled_shaders@.len() + count_ok(outcomes@.take(i))
                &&& holds_artifact(&final(self).compiled_shaders@[id as int], &outcomes@[i]->Ok_0)
            }),
    {
        let ghost all = outcomes@;
        let ghost base = old(self).compiled_shaders@.len();
        let mut rest = outcomes;
        let mut r: Vec<Result<usize, SlErr>> = Vec::new();
        let mut i: usize = 0;
        proof {
            assert(all.take(0) =~= Seq::<Result<CompiledShader, SlErr>>::empty());
            assert(rest@ =~= all.skip(0));
        }
        while rest.len() > 0
            invariant
                i <= all.len(),
                rest@ == all.skip(i as int),
                base + all.len() < usize::MAX,
                self.registry_wf(),
                self.shaders == old(self).shaders,
                r@.len() == i,
                self.compiled_shaders@.len() == base + count_ok(all.take(i as int)),
                forall|j: int| 0 <= j < base ==> self.compiled_shaders@[j] == old(self).compiled_shaders@[j],
                forall|j: int| 0 <= j < i ==> (#[trigger] r@[j] is Ok <==> all[j] is Ok),
                forall|j: int| 0 <= j < i ==> (#[trigger] r@[j] matches Err(e) ==> all[j] == Err::<CompiledShader, SlErr>(e)),
                forall|j: int| 0 <= j < i ==> (#[trigger] r@[j] matches Ok(id) ==> {
                    &&& (id as int) < self.compiled_shaders@.len()
                    &&& id == base + count_ok(all.take(j))
                    &&& holds_artifact(&self.compiled_shaders@[id as int], &all[j]->Ok_0)
                }),
            decreases rest@.len(),
        {
            proof {
                assert(all.take(i as int + 1).drop_last() =~= all.take(i as int));
                lemma_count_ok_bound(all.take(i as int));
            }
            let outcome = rest.remove(0);
            proof {
                assert(outcome == all[i as int]);
                assert(rest@ =~= all.skip(i as int + 1));
            }
            let ghost before = self.compiled_shaders@;
            let ghost r0 = r@;
            match outcome {
                Ok(shader) => {
                    let id = self.register_compiled(shader);
                    r.push(Ok(id));
                    proof {
                        assert forall|j: int| 0 <= j < i implies (#[trigger] r@[j] matches Ok(id2) ==> {
                            &&& (id2 as int) < self.compiled_shaders@.len()
                            &&& id2 == base + count_ok(all.take(j))
                            &&& holds_artifact(&self.compiled_shaders@[id2 as int], &all[j]->Ok_0)
                        }) by {
                            assert(r@[j] == r0[j]);
                            if let Ok(id2) = r@[j] {
                                assert(self.compiled_shaders@[id2 as int] == before[id2 as int]);
                            }
                        }
                    }
                },
                Err(e) => {
                    r.push(Err(e));
                },
            }
            i += 1;
        }
        proof {
            assert(all.skip(i as int).len() == 0);
            assert(all.take(i as int) =~= all);
        }
        r
    }
}

proof fn lemma_count_ok_bound(v: Seq<Result<CompiledShader, SlErr>>)
    ensures
        count_ok(v) <= v.len(),
    decreases v.len(),
{
    if v.len() > 0 {
        lemma_count_ok_bound(v.drop_last());
    }
}

} // verus!
