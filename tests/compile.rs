use render::assemble::AssembledHlslShader;
use render::ast::{ShFn, ShFnArg, Shader, SlNode, SlStmt};
use render::layout::{input_elements, NamedProps, RectInstanceProps, VertexFormat};
use render::registry::{CompiledShader, Cx, StageHandles};
use render::resolve::resolve_fn_order;
use render::shader::{compute_slot_total, flat_vars, ShConst, ShVar, ShVarStore, SlErr, SlTarget};
use render::slcx::{MapCallResult, Sl, SlCx};

fn var(name: &str, ty: &str, store: ShVarStore) -> ShVar {
    ShVar::new(name, ty, store)
}

fn lit(text: &str, ty: &str) -> SlNode {
    SlNode::Lit { text: text.to_string(), ty: ty.to_string() }
}

fn ident(name: &str) -> SlNode {
    SlNode::Ident { name: name.to_string() }
}

fn call(name: &str, args: Vec<usize>) -> SlNode {
    SlNode::Call { name: name.to_string(), args }
}

fn func(name: &str, ret: &str, nodes: Vec<SlNode>, body: Vec<SlStmt>) -> ShFn {
    ShFn { name: name.to_string(), args: Vec::new(), ret: ret.to_string(), nodes, body }
}

fn ret(value: usize) -> SlStmt {
    SlStmt::Return { value }
}

/// vertex() returns vec4(pos, 0.0, 1.0).
fn vertex_with_pos() -> ShFn {
    func(
        "vertex",
        "vec4",
        vec![ident("pos"), lit("0.0", "float"), lit("1.0", "float"), call("vec4", vec![0, 1, 2])],
        vec![ret(3)],
    )
}

/// pixel() returns a constant colour.
fn pixel_constant() -> ShFn {
    func(
        "pixel",
        "vec4",
        vec![lit("1.0", "float"), lit("0.0", "float"), call("vec4", vec![0, 1, 1, 0])],
        vec![ret(2)],
    )
}

/// pixel() reads pos twice: vec4(pos, pos.x, 1.0).
fn pixel_reading_pos() -> ShFn {
    func(
        "pixel",
        "vec4",
        vec![
            ident("pos"),
            ident("pos"),
            SlNode::Field { base: 1, field: "x".to_string() },
            lit("1.0", "float"),
            call("vec4", vec![0, 2, 3]),
        ],
        vec![ret(4)],
    )
}

fn shader(vars: Vec<ShVar>, fns: Vec<ShFn>) -> Shader {
    Shader { name: "test".to_string(), vars, consts: Vec::new(), fns, log: false }
}

fn assemble(sh: &Shader) -> Result<AssembledHlslShader, SlErr> {
    assert!(sh.is_well_formed());
    Cx::hlsl_assemble_shader(sh)
}

fn count(hay: &str, needle: &str) -> usize {
    hay.matches(needle).count()
}

fn pixel_cx() -> SlCx {
    SlCx {
        target: SlTarget::Pixel,
        defargs_fn: String::new(),
        defargs_call: String::new(),
        call_prefix: "_".to_string(),
        auto_vary: Vec::new(),
        shared: false,
    }
}

fn sl(text: &str, ty: &str) -> Sl {
    Sl { sl: text.to_string(), ty: ty.to_string() }
}

#[test]
fn hlsl_type_maps_shader_types() {
    assert_eq!(Cx::hlsl_type("float"), "float");
    assert_eq!(Cx::hlsl_type("vec2"), "float2");
    assert_eq!(Cx::hlsl_type("vec3"), "float3");
    assert_eq!(Cx::hlsl_type("vec4"), "float4");
    assert_eq!(Cx::hlsl_type("mat2"), "float2x2");
    assert_eq!(Cx::hlsl_type("mat3"), "float3x3");
    assert_eq!(Cx::hlsl_type("mat4"), "float4x4");
    assert_eq!(Cx::hlsl_type("texture2d"), "Texture2D");
    assert_eq!(Cx::hlsl_type("MyStruct"), "MyStruct");
}

#[test]
fn struct_fields_carry_uppercase_semantics() {
    let vars = vec![var("pos", "vec2", ShVarStore::Instance), var("color", "vec4", ShVarStore::Instance)];
    let s = Cx::hlsl_assemble_struct("struct", "_Inst", &vars, "INST_", "", "");
    assert_eq!(s, "struct _Inst{\n  float2 pos: INST_POS;\n  float4 color: INST_COLOR;\n};\n\n");
}

#[test]
fn uniform_block_has_register_and_no_semantics() {
    let vars = vec![var("time", "float", ShVarStore::UniformCx)];
    let s = Cx::hlsl_assemble_struct("cbuffer", "_Uni_Cx", &vars, "", "", ": register(b0)");
    assert_eq!(s, "cbuffer _Uni_Cx: register(b0){\n  float time;\n};\n\n");
}

#[test]
fn empty_struct_is_well_formed() {
    let s = Cx::hlsl_assemble_struct("struct", "_Geom", &Vec::new(), "GEOM_", "", "");
    assert_eq!(s, "struct _Geom{\n};\n\n");
}

#[test]
fn init_struct_zeroes_by_type() {
    let vars = vec![
        var("a", "float", ShVarStore::Local),
        var("b", "vec2", ShVarStore::Local),
        var("c", "vec3", ShVarStore::Local),
        var("d", "vec4", ShVarStore::Local),
    ];
    let s = Cx::hlsl_init_struct(&vars, "float4(0.0,0.0,0.0,0.0),");
    assert_eq!(
        s,
        "{\nfloat4(0.0,0.0,0.0,0.0),0.0,float2(0.0,0.0),float3(0.0,0.0,0.0),float4(0.0,0.0,0.0,0.0),}"
    );
}

#[test]
fn texture_slots_bind_in_order() {
    let tex = vec![var("image", "texture2d", ShVarStore::Texture), var("mask", "texture2d", ShVarStore::Texture)];
    let s = Cx::hlsl_assemble_texture_slots(&tex);
    assert_eq!(s, "Texture2D image: register(t0);\nTexture2D mask: register(t1);\n");
}

#[test]
fn texture_slot_numbers_past_nine() {
    let tex: Vec<ShVar> = (0..11).map(|i| var(&format!("t{}", i), "texture2d", ShVarStore::Texture)).collect();
    let s = Cx::hlsl_assemble_texture_slots(&tex);
    assert!(s.ends_with("Texture2D t10: register(t10);\n"));
}

#[test]
fn sample2d_rewrites_to_vec4_sample() {
    let cx = pixel_cx();
    match cx.map_call("sample2d", &vec![sl("tex", "texture2d"), sl("uv", "vec2")]) {
        MapCallResult::Rewrite(text, ty) => {
            assert_eq!(text, "tex.Sample(DefaultTextureSampler,uv)");
            assert_eq!(ty, "vec4");
        }
        other => panic!("unexpected {:?}", other),
    }
}

#[test]
fn color_rewrites_to_float4_literal() {
    let cx = pixel_cx();
    match cx.map_call("color", &vec![sl("#f80", "vec4")]) {
        MapCallResult::Rewrite(text, ty) => {
            assert_eq!(text, "float4(255.0/255.0,136.0/255.0,0.0/255.0,255.0/255.0)");
            assert_eq!(ty, "vec4");
        }
        other => panic!("unexpected {:?}", other),
    }
    match cx.map_call("color", &vec![sl("#10203040", "vec4")]) {
        MapCallResult::Rewrite(text, _) => assert_eq!(text, "float4(16.0/255.0,32.0/255.0,48.0/255.0,64.0/255.0)"),
        other => panic!("unexpected {:?}", other),
    }
}

#[test]
fn malformed_color_is_passed_through() {
    let cx = pixel_cx();
    assert!(matches!(cx.map_call("color", &vec![sl("#12", "vec4")]), MapCallResult::PassThrough));
    assert!(matches!(cx.map_call("color", &vec![sl("#ggg", "vec4")]), MapCallResult::PassThrough));
}

#[test]
fn renames_mix_and_derivatives() {
    let cx = pixel_cx();
    let args = vec![sl("a", "float"), sl("b", "float"), sl("t", "float")];
    assert!(matches!(cx.map_call("mix", &args), MapCallResult::Rename(n) if n == "lerp"));
    assert!(matches!(cx.map_call("dfdx", &args), MapCallResult::Rename(n) if n == "ddx"));
    assert!(matches!(cx.map_call("dfdy", &args), MapCallResult::Rename(n) if n == "ddy"));
    assert!(matches!(cx.map_call("sin", &args), MapCallResult::PassThrough));
}

#[test]
fn mat_mul_keeps_operand_order() {
    let cx = pixel_cx();
    assert_eq!(cx.mat_mul("M", "v"), "mul(M,v)");
    assert_eq!(cx.mat_mul("v", "M"), "mul(v,M)");
    assert_eq!(cx.map_type("mat4"), "float4x4");
}

#[test]
fn map_var_rewrites_by_store_and_stage() {
    let mut vx = SlCx { target: SlTarget::Vertex, ..pixel_cx() };
    assert_eq!(vx.map_var(&var("pos", "vec2", ShVarStore::Instance)), "_inst.pos");
    assert_eq!(vx.map_var(&var("geom", "vec2", ShVarStore::Geometry)), "_geom.geom");
    assert_eq!(vx.map_var(&var("time", "float", ShVarStore::UniformCx)), "time");
    assert_eq!(vx.map_var(&var("tmp", "float", ShVarStore::Local)), "_loc.tmp");
    assert_eq!(vx.map_var(&var("v", "vec2", ShVarStore::Varying)), "_vary.v");
    assert!(vx.auto_vary.is_empty());
}

#[test]
fn pixel_reads_promote_once_per_name() {
    let mut px = pixel_cx();
    let pos = var("pos", "vec2", ShVarStore::Instance);
    assert_eq!(px.map_var(&pos), "_vary.pos");
    assert_eq!(px.map_var(&pos), "_vary.pos");
    assert_eq!(px.map_var(&var("geom", "vec2", ShVarStore::Geometry)), "_vary.geom");
    assert_eq!(px.map_var(&pos), "_vary.pos");
    let names: Vec<&str> = px.auto_vary.iter().map(|v| v.name.as_str()).collect();
    assert_eq!(names, vec!["pos", "geom"]);
}

#[test]
fn layout_offsets_follow_declaration_order() {
    let vars = vec![
        var("a", "float", ShVarStore::Instance),
        var("b", "vec2", ShVarStore::Instance),
        var("c", "vec4", ShVarStore::Instance),
        var("m", "mat3", ShVarStore::Instance),
    ];
    let np = NamedProps::construct(&vars).unwrap();
    let offsets: Vec<usize> = np.props.iter().map(|p| p.offset).collect();
    let slots: Vec<usize> = np.props.iter().map(|p| p.slots).collect();
    assert_eq!(offsets, vec![0, 1, 3, 7]);
    assert_eq!(slots, vec![1, 2, 4, 9]);
    assert_eq!(np.total_slots, 16);
    assert_eq!(compute_slot_total(&vars), 16);
}

#[test]
fn layout_rejects_a_texture() {
    let vars = vec![var("a", "float", ShVarStore::Geometry), var("t", "texture2d", ShVarStore::Geometry)];
    assert!(matches!(NamedProps::construct(&vars), Err(SlErr::UnsupportedType { name }) if name == "t"));
}

#[test]
fn rect_instance_fields_by_name() {
    let vars = vec![
        var("color", "vec4", ShVarStore::Instance),
        var("x", "float", ShVarStore::Instance),
        var("y", "float", ShVarStore::Instance),
        var("w", "float", ShVarStore::Instance),
        var("h", "float", ShVarStore::Instance),
    ];
    let np = NamedProps::construct(&vars).unwrap();
    let r = RectInstanceProps::construct(&np);
    assert_eq!((r.x, r.y, r.w, r.h), (Some(4), Some(5), Some(6), Some(7)));
    let none = RectInstanceProps::construct(&NamedProps::construct(&vec![var("x", "vec2", ShVarStore::Instance)]).unwrap());
    assert_eq!(none.x, None);
}

#[test]
fn input_elements_formats_and_offsets() {
    let vars = vec![var("pos", "vec2", ShVarStore::Instance), var("color", "vec4", ShVarStore::Instance)];
    let np = NamedProps::construct(&vars).unwrap();
    let els = input_elements(&np, true).unwrap();
    assert_eq!(els.len(), 2);
    assert_eq!(els[0].semantic, "INST_POS");
    assert_eq!(els[0].format, VertexFormat::R32G32Float);
    assert_eq!(els[1].format, VertexFormat::R32G32B32A32Float);
    assert_eq!(els[1].byte_offset, 8);
    assert_eq!((els[1].input_slot, els[1].step_rate, els[1].per_instance), (1, 1, true));
    let geo = input_elements(&NamedProps::construct(&vec![var("p", "float", ShVarStore::Geometry)]).unwrap(), false).unwrap();
    assert_eq!(geo[0].semantic, "GEOM_P");
    assert_eq!(geo[0].format, VertexFormat::R32Float);
    assert_eq!((geo[0].input_slot, geo[0].step_rate, geo[0].per_instance), (0, 0, false));
}

#[test]
fn input_elements_reject_wide_slots() {
    let np = NamedProps::construct(&vec![var("m", "mat3", ShVarStore::Geometry)]).unwrap();
    assert!(matches!(input_elements(&np, false), Err(SlErr::UnsupportedSlotWidth { name, slots: 9 }) if name == "m"));
}

#[test]
fn flat_vars_keeps_declaration_order() {
    let vars = vec![
        var("a", "float", ShVarStore::Instance),
        var("b", "float", ShVarStore::Geometry),
        var("c", "vec2", ShVarStore::Instance),
    ];
    let inst: Vec<String> = flat_vars(&vars, ShVarStore::Instance).into_iter().map(|v| v.name).collect();
    assert_eq!(inst, vec!["a".to_string(), "c".to_string()]);
}

#[test]
fn resolver_emits_callees_first_once() {
    // 0 calls 2 and 1; 1 calls 2; 3 is unreachable.
    let g = vec![vec![2, 1], vec![2], vec![], vec![0]];
    let order = resolve_fn_order(&g, &vec![0]).unwrap();
    assert_eq!(order, vec![2, 1, 0]);
    let both = resolve_fn_order(&g, &vec![0, 2]).unwrap();
    assert_eq!(both, vec![2, 1, 0]);
}

#[test]
fn resolver_detects_recursion() {
    let g = vec![vec![1], vec![2], vec![1]];
    assert!(resolve_fn_order(&g, &vec![0]).is_err());
    assert!(resolve_fn_order(&vec![vec![0]], &vec![0]).is_err());
}

#[test]
fn instance_read_only_in_vertex_is_not_promoted() {
    let sh = shader(vec![var("pos", "vec2", ShVarStore::Instance)], vec![vertex_with_pos(), pixel_constant()]);
    let a = assemble(&sh).unwrap();
    assert_eq!(count(&a.hlsl, "VARY_POS"), 0);
    assert_eq!(count(&a.hlsl, "_vary.pos = _inst.pos;"), 0);
    assert!(a.hlsl.contains("float4 _vertex(inout _Loc _loc, inout _Vary _vary, in _Geom _geom, in _Inst _inst){\n  return float4(_inst.pos, 0.0, 1.0);\n}\n"));
}

#[test]
fn instance_read_in_pixel_is_promoted_once() {
    let sh = shader(vec![var("pos", "vec2", ShVarStore::Instance)], vec![vertex_with_pos(), pixel_reading_pos()]);
    let a = assemble(&sh).unwrap();
    assert_eq!(count(&a.hlsl, "  float2 pos: VARY_POS;\n"), 1);
    assert_eq!(count(&a.hlsl, "_vary.pos = _inst.pos;"), 1);
    assert!(a.hlsl.contains("return float4(_vary.pos, _vary.pos.x, 1.0);"));
}

#[test]
fn empty_shader_still_compiles() {
    let sh = shader(Vec::new(), vec![func("vertex", "vec4", vec![lit("0.0", "float"), call("vec4", vec![0, 0, 0, 0])], vec![ret(1)]), pixel_constant()]);
    let a = assemble(&sh).unwrap();
    assert_eq!((a.geometry_slots, a.instance_slots), (0, 0));
    assert!(a.hlsl.contains("struct _Geom{\n};\n\n"));
    assert!(a.hlsl.contains("struct _Inst{\n};\n\n"));
    assert!(a.hlsl.contains("cbuffer _Uni_Dr: register(b2){\n};\n\n"));
    assert!(a.hlsl.contains("struct _Vary{\n  float4 hlsl_position : SV_POSITION;\n};\n\n"));
    assert!(a.hlsl.contains("_Vary _vertex_shader(_Geom _geom, _Inst _inst, uint inst_id: SV_InstanceID){\n"));
    assert!(a.hlsl.contains("  _Vary _vary = {\nfloat4(0.0,0.0,0.0,0.0),};\n"));
    assert!(a.hlsl.ends_with("float4 _pixel_shader(_Vary _vary) : SV_TARGET{\n  _Loc _loc = {\n};\n  _Geom _geom = {\n};\n  _Inst _inst = {\n};\n  return _pixel(_loc, _vary, _geom, _inst);\n};\n"));
}

#[test]
fn assembling_twice_gives_identical_source() {
    let make = || shader(vec![var("pos", "vec2", ShVarStore::Instance), var("t", "float", ShVarStore::Uniform)], vec![vertex_with_pos(), pixel_reading_pos()]);
    let a = assemble(&make()).unwrap();
    let b = assemble(&make()).unwrap();
    assert_eq!(a.hlsl.as_bytes(), b.hlsl.as_bytes());
}

#[test]
fn shared_helpers_are_emitted_once_before_use() {
    // helper() is called from both entry points.
    let helper = func("helper", "float", vec![lit("0.5", "float")], vec![ret(0)]);
    let vertex = func("vertex", "vec4", vec![call("helper", vec![]), call("vec4", vec![0, 0, 0, 0])], vec![ret(1)]);
    let pixel = func("pixel", "vec4", vec![call("helper", vec![]), call("vec4", vec![0, 0, 0, 0])], vec![ret(1)]);
    let sh = shader(Vec::new(), vec![vertex, pixel, helper]);
    let a = assemble(&sh).unwrap();
    assert_eq!(count(&a.hlsl, "float _helper("), 1);
    let def = a.hlsl.find("float _helper(inout _Loc _loc, inout _Vary _vary, in _Geom _geom, in _Inst _inst){").unwrap();
    let use_v = a.hlsl.find("float4 _vertex(").unwrap();
    let use_p = a.hlsl.find("float4 _pixel(").unwrap();
    assert!(def < use_v && def < use_p);
    assert_eq!(count(&a.hlsl, "float4(_helper(_loc, _vary, _geom, _inst), "), 2);
}

#[test]
fn shared_helper_may_not_read_an_instance() {
    let vars = vec![var("pos", "vec2", ShVarStore::Instance)];
    let helper = func("helper", "vec2", vec![ident("pos")], vec![ret(0)]);
    let vertex = func("vertex", "vec4", vec![call("helper", vec![]), lit("0.0", "float"), call("vec4", vec![0, 1, 1])], vec![ret(2)]);
    let pixel = func("pixel", "vec4", vec![call("helper", vec![]), lit("1.0", "float"), call("vec4", vec![0, 1, 1])], vec![ret(2)]);
    let r = assemble(&shader(vars, vec![vertex, pixel, helper]));
    assert!(matches!(r, Err(SlErr::UnresolvedVariable { name }) if name == "pos"));
}

#[test]
fn pixel_only_helper_promotes_the_instance_it_reads() {
    let vars = vec![var("pos", "vec2", ShVarStore::Instance)];
    let helper = func("helper", "vec2", vec![ident("pos")], vec![ret(0)]);
    let pixel = func("pixel", "vec4", vec![call("helper", vec![]), ident("pos"), call("vec4", vec![0, 1])], vec![ret(2)]);
    let a = assemble(&shader(vars, vec![vertex_with_pos(), pixel, helper])).unwrap();
    assert!(a.hlsl.contains("float2 _helper(inout _Loc _loc, inout _Vary _vary, in _Geom _geom, in _Inst _inst){\n  return _vary.pos;\n}\n"));
    assert_eq!(count(&a.hlsl, "  float2 pos: VARY_POS;\n"), 1);
    assert_eq!(count(&a.hlsl, "_vary.pos = _inst.pos;"), 1);
}

#[test]
fn sample2d_needs_two_arguments() {
    let vars = vec![var("tex", "texture2d", ShVarStore::Texture)];
    let pixel = func("pixel", "vec4", vec![ident("tex"), call("sample2d", vec![0])], vec![ret(1)]);
    let r = assemble(&shader(vars, vec![vertex_with_pos_const(), pixel]));
    assert!(matches!(r, Err(SlErr::UnknownIntrinsic { name }) if name == "sample2d"));
}

#[test]
fn first_failing_expression_is_reported() {
    let vertex = func("vertex", "vec4", vec![ident("first"), ident("second"), call("vec4", vec![0, 1, 0, 1])], vec![ret(2)]);
    let r = assemble(&shader(Vec::new(), vec![vertex, pixel_constant()]));
    assert!(matches!(r, Err(SlErr::UnresolvedVariable { name }) if name == "first"));
}

#[test]
fn emission_order_follows_the_call_graph() {
    // vertex calls b then a; a calls b. Declared a, b, vertex, pixel.
    let a_fn = func("a", "float", vec![call("b", vec![])], vec![ret(0)]);
    let b_fn = func("b", "float", vec![lit("1.0", "float")], vec![ret(0)]);
    let vertex = func("vertex", "vec4", vec![call("b", vec![]), call("a", vec![]), call("vec4", vec![0, 1, 0, 1])], vec![ret(2)]);
    let sh = shader(Vec::new(), vec![a_fn, b_fn, vertex, pixel_constant()]);
    let a = assemble(&sh).unwrap();
    let pb = a.hlsl.find("float _b(").unwrap();
    let pa = a.hlsl.find("float _a(").unwrap();
    let pv = a.hlsl.find("float4 _vertex(").unwrap();
    assert!(pb < pa && pa < pv);
}

#[test]
fn matrix_product_in_a_shader() {
    let vars = vec![var("m", "mat4", ShVarStore::Uniform), var("p", "vec4", ShVarStore::Geometry)];
    let vertex = func("vertex", "vec4", vec![ident("m"), ident("p"), SlNode::MatMul { left: 0, right: 1 }], vec![ret(2)]);
    let a = assemble(&shader(vars, vec![vertex, pixel_constant()])).unwrap();
    assert!(a.hlsl.contains("return mul(m,_geom.p);"));
}

#[test]
fn constants_become_defines() {
    let mut sh = shader(Vec::new(), vec![func("vertex", "vec4", vec![ident("SCALE"), call("vec4", vec![0, 0, 0, 0])], vec![ret(1)]), pixel_constant()]);
    sh.consts.push(ShConst { name: "SCALE".to_string(), ty: "float".to_string(), value: "2.0".to_string() });
    let a = assemble(&sh).unwrap();
    assert!(a.hlsl.contains("#define  SCALE (2.0)\n"));
    assert!(a.hlsl.contains("return float4(SCALE, SCALE, SCALE, SCALE);"));
}

#[test]
fn locals_args_and_statements() {
    let mut f = func(
        "vertex",
        "vec4",
        vec![ident("k"), lit("2.0", "float"), SlNode::Binary { left: 0, op: "*".to_string(), right: 1 }, ident("tmp"), call("vec4", vec![3, 3, 3, 3])],
        vec![SlStmt::Let { name: "tmp".to_string(), ty: "float".to_string(), value: 2 }, ret(4)],
    );
    f.args.push(ShFnArg { name: "k".to_string(), ty: "float".to_string() });
    let a = assemble(&shader(Vec::new(), vec![f, pixel_constant()])).unwrap();
    assert!(a.hlsl.contains("float4 _vertex(inout _Loc _loc, inout _Vary _vary, in _Geom _geom, in _Inst _inst, float k){\n  float tmp = (k * 2.0);\n  return float4(tmp, tmp, tmp, tmp);\n}\n"));
}

#[test]
fn unknown_intrinsic_is_reported() {
    let vertex = func("vertex", "vec4", vec![call("frobnicate", vec![])], vec![ret(0)]);
    let r = assemble(&shader(Vec::new(), vec![vertex, pixel_constant()]));
    assert!(matches!(r, Err(SlErr::UnknownIntrinsic { name }) if name == "frobnicate"));
}

#[test]
fn unresolved_variable_is_reported() {
    let vertex = func("vertex", "vec4", vec![ident("nowhere")], vec![ret(0)]);
    let r = assemble(&shader(Vec::new(), vec![vertex, pixel_constant()]));
    assert!(matches!(r, Err(SlErr::UnresolvedVariable { name }) if name == "nowhere"));
}

#[test]
fn recursion_is_reported() {
    let vertex = func("vertex", "vec4", vec![call("again", vec![])], vec![ret(0)]);
    let again = func("again", "vec4", vec![call("again", vec![])], vec![ret(0)]);
    let r = assemble(&shader(Vec::new(), vec![vertex, pixel_constant(), again]));
    assert!(matches!(r, Err(SlErr::RecursiveCallDetected { name }) if name == "again"));
}

#[test]
fn unsupported_type_is_reported() {
    let sh = shader(vec![var("q", "quaternion", ShVarStore::Uniform)], vec![vertex_with_pos(), pixel_constant()]);
    assert!(matches!(assemble(&sh), Err(SlErr::UnsupportedType { name }) if name == "q"));
}

#[test]
fn missing_entry_point_is_reported() {
    let sh = shader(Vec::new(), vec![pixel_constant()]);
    assert!(matches!(assemble(&sh), Err(SlErr::UnknownIntrinsic { name }) if name == "vertex"));
}

#[test]
fn prepared_shader_layout_lists_geometry_then_instances() {
    let sh = shader(
        vec![var("geom", "vec2", ShVarStore::Geometry), var("pos", "vec2", ShVarStore::Instance), var("size", "vec2", ShVarStore::Instance)],
        vec![vertex_with_pos(), pixel_constant()],
    );
    let p = Cx::hlsl_compile_shader(&sh).unwrap();
    let names: Vec<&str> = p.layout.iter().map(|e| e.semantic.as_str()).collect();
    assert_eq!(names, vec!["GEOM_GEOM", "INST_POS", "INST_SIZE"]);
    assert_eq!(p.layout[2].byte_offset, 8);
    assert_eq!((p.assembled.geometry_slots, p.assembled.instance_slots), (2, 4));
}

fn compiled(sh: &Shader, handle: u64) -> CompiledShader {
    Cx::hlsl_compile_shader(sh).unwrap().into_compiled(StageHandles { vertex_shader: handle, pixel_shader: handle + 1, input_layout: handle + 2 })
}

#[test]
fn one_failed_shader_does_not_block_another() {
    let good = shader(Vec::new(), vec![func("vertex", "vec4", vec![lit("0.0", "float"), call("vec4", vec![0, 0, 0, 0])], vec![ret(1)]), pixel_constant()]);
    let mut cx = Cx::new(Vec::new());
    let outcomes = vec![
        Err(SlErr::ShaderCompileError { stage: SlTarget::Pixel, message: "syntax error".to_string() }),
        Ok(compiled(&good, 10)),
    ];
    let r = cx.hlsl_compile_all_shaders(outcomes);
    assert!(matches!(r[0], Err(SlErr::ShaderCompileError { .. })));
    assert!(matches!(r[1], Ok(0)));
    assert_eq!(cx.compiled_shaders.len(), 1);
    assert_eq!(cx.compiled_shaders[0].shader_id, 0);
    assert_eq!(cx.compiled_shaders[0].handles.vertex_shader, 10);
}

#[test]
fn registry_assigns_sequential_ids() {
    let good = shader(Vec::new(), vec![func("vertex", "vec4", vec![lit("0.0", "float"), call("vec4", vec![0, 0, 0, 0])], vec![ret(1)]), pixel_constant()]);
    let mut cx = Cx::new(Vec::new());
    let first = cx.register_compiled(compiled(&good, 1));
    let r = cx.hlsl_compile_all_shaders(vec![Ok(compiled(&good, 2)), Ok(compiled(&good, 3))]);
    assert_eq!(first, 0);
    assert!(matches!(r[0], Ok(1)));
    assert!(matches!(r[1], Ok(2)));
    let ids: Vec<usize> = cx.compiled_shaders.iter().map(|c| c.shader_id).collect();
    assert_eq!(ids, vec![0, 1, 2]);
    assert_eq!(cx.compiled_shaders[2].handles.input_layout, 5);
}

#[test]
fn init_struct_zeroes_matrices() {
    let vars = vec![var("m", "mat2", ShVarStore::Local), var("n", "mat3", ShVarStore::Local)];
    assert_eq!(
        Cx::hlsl_init_struct(&vars, ""),
        "{\nfloat2x2(0.0,0.0,0.0,0.0),float3x3(0.0,0.0,0.0,0.0,0.0,0.0,0.0,0.0,0.0),}"
    );
}

#[test]
fn wide_vertex_input_is_reported_by_name() {
    let sh = shader(vec![var("m", "mat4", ShVarStore::Instance)], vec![vertex_with_pos_const(), pixel_constant()]);
    assert!(matches!(Cx::hlsl_compile_shader(&sh), Err(SlErr::UnsupportedSlotWidth { name, slots: 16 }) if name == "m"));
}

fn vertex_with_pos_const() -> ShFn {
    func("vertex", "vec4", vec![lit("0.0", "float"), call("vec4", vec![0, 0, 0, 0])], vec![ret(1)])
}

#[test]
fn compile_passes_assembly_errors_on() {
    let sh = shader(vec![var("t", "texture2d", ShVarStore::Geometry)], vec![vertex_with_pos_const(), pixel_constant()]);
    assert!(matches!(Cx::hlsl_compile_shader(&sh), Err(SlErr::UnsupportedType { name }) if name == "t"));
}

#[test]
fn compiled_artifact_carries_source_and_metadata() {
    let sh = shader(vec![var("x", "float", ShVarStore::Instance), var("y", "float", ShVarStore::Instance)], vec![vertex_with_pos_const(), pixel_constant()]);
    let p = Cx::hlsl_compile_shader(&sh).unwrap();
    let hlsl = p.assembled.hlsl.clone();
    let c = p.into_compiled(StageHandles { vertex_shader: 1, pixel_shader: 2, input_layout: 3 });
    assert_eq!(c.hlsl, hlsl);
    assert_eq!((c.rect_instance_props.x, c.rect_instance_props.y, c.rect_instance_props.w), (Some(0), Some(1), None));
    assert_eq!(c.named_instance_props.total_slots, 2);
    assert_eq!(c.instance_slots, 2);
}

#[test]
fn field_line_uses_the_given_upper_name() {
    assert_eq!(Cx::hlsl_struct_field("vec2", "pos", "INST_", "POS"), "  float2 pos: INST_POS;\n");
    assert_eq!(Cx::hlsl_struct_field("float", "t", "", "T"), "  float t;\n");
}
