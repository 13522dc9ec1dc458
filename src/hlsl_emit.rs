//! HLSL type names, struct and uniform block declarations, default initialisers
//! and texture slot bindings.

use vstd::prelude::*;
use crate::shader::{ShVar, ShVarView, view_vars};
use crate::text::{decimal, decimal_string, str_eq, to_upper, upper_of};
use crate::registry::Cx;

verus! {

/// The HLSL spelling of a shader type name; other names are kept as written.
pub open spec fn hlsl_type_of(ty: Seq<char>) -> Seq<char> {
    if ty == "float"@ {
        "float"@
    } else if ty == "vec2"@ {
        "float2"@
    } else if ty == "vec3"@ {
        "float3"@
    } else if ty == "vec4"@ {
        "float4"@
    } else if ty == "mat2"@ {
        "float2x2"@
    } else if ty == "mat3"@ {
        "float3x3"@
    } else if ty == "mat4"@ {
        "float4x4"@
    } else if ty == "texture2d"@ {
        "Texture2D"@
    } else {
        ty
    }
}

/// One field line: type, name and, given a prefix, a semantic tag made of
/// the prefix and the upper-cased name.
pub open spec fn field_line(ty: Seq<char>, name: Seq<char>, semantic: Seq<char>, upper: Seq<char>) -> Seq<char> {
    "  "@ + hlsl_type_of(ty) + " "@ + name + (if semantic.len() > 0 {
        ": "@ + semantic + upper
    } else {
        Seq::<char>::empty()
    }) + ";\n"@
}

/// One field line of a struct for a variable.
pub open spec fn struct_field(v: ShVarView, semantic: Seq<char>) -> Seq<char> {
    field_line(v.ty, v.name, semantic, upper_of(v.name))
}

/// The field lines of a struct, in declaration order.
pub open spec fn struct_fields(vs: Seq<ShVarView>, semantic: Seq<char>) -> Seq<char>
    decreases vs.len(),
{
    if vs.len() == 0 {
        Seq::<char>::empty()
    } else {
        struct_fields(vs.drop_last(), semantic) + struct_field(vs.last(), semantic)
    }
}

/// A whole struct or block declaration.
pub open spec fn struct_decl(
    lead: Seq<char>,
    name: Seq<char>,
    vs: Seq<ShVarView>,
    semantic: Seq<char>,
    field: Seq<char>,
    post: Seq<char>,
) -> Seq<char> {
    lead + " "@ + name + post + "{\n"@ + field + struct_fields(vs, semantic) + "};\n\n"@
}

/// The zero literal of an HLSL type; empty for types with no such literal.
pub open spec fn zero_of(hty: Seq<char>) -> Seq<char> {
    if hty == "float"@ {
        "0.0"@
    } else if hty == "float2"@ {
        "float2(0.0,0.0)"@
    } else if hty == "float3"@ {
        "float3(0.0,0.0,0.0)"@
    } else if hty == "float4"@ {
        "float4(0.0,0.0,0.0,0.0)"@
    } else if hty == "float2x2"@ {
        "float2x2(0.0,0.0,0.0,0.0)"@
    } else if hty == "float3x3"@ {
        "float3x3(0.0,0.0,0.0,0.0,0.0,0.0,0.0,0.0,0.0)"@
    } else if hty == "float4x4"@ {
        "float4x4(0.0,0.0,0.0,0.0,0.0,0.0,0.0,0.0,0.0,0.0,0.0,0.0,0.0,0.0,0.0,0.0)"@
    } else {
        Seq::<char>::empty()
    }
}

/// The initialiser entries of a struct, one zero literal and a comma per field.
pub open spec fn init_entries(vs: Seq<ShVarView>) -> Seq<char>
    decreases vs.len(),
{
    if vs.len() == 0 {
        Seq::<char>::empty()
    } else {
        init_entries(vs.drop_last()) + zero_of(hlsl_type_of(vs.last().ty)) + ","@
    }
}

/// A brace initialiser that zeroes every field.
pub open spec fn init_struct(vs: Seq<ShVarView>, field: Seq<char>) -> Seq<char> {
    "{\n"@ + field + init_entries(vs) + "}"@
}

/// The texture declarations, each bound to the register of its position.
pub open spec fn texture_decls(vs: Seq<ShVarView>) -> Seq<char>
    decreases vs.len(),
{
    if vs.len() == 0 {
        Seq::<char>::empty()
    } else {
        texture_decls(vs.drop_last()) + "Texture2D "@ + vs.last().name + ": register(t"@
            + decimal((vs.len() - 1) as nat) + ");\n"@
    }
}

fn zero_literal(hty: &str) -> (r: &'static str)
    ensures
        r@ == zero_of(hty@),
{
    if str_eq(hty, "float") {
        "0.0"
    } else if str_eq(hty, "float2") {
        "float2(0.0,0.0)"
    } else if str_eq(hty, "float3") {
        "float3(0.0,0.0,0.0)"
    } else if str_eq(hty, "float4") {
        "float4(0.0,0.0,0.0,0.0)"
    } else if str_eq(hty, "float2x2") {
        "float2x2(0.0,0.0,0.0,0.0)"
    } else if str_eq(hty, "float3x3") {
        "float3x3(0.0,0.0,0.0,0.0,0.0,0.0,0.0,0.0,0.0)"
    } else if str_eq(hty, "float4x4") {
        "float4x4(0.0,0.0,0.0,0.0,0.0,0.0,0.0,0.0,0.0,0.0,0.0,0.0,0.0,0.0,0.0,0.0)"
    } else {
        proof {
            reveal_strlit("");
        }
        ""
    }
}

impl Cx {
/// The HLSL spelling of a shader type name.
pub fn hlsl_type(ty: &str) -> (r: String)
    ensures
        r@ == hlsl_type_of(ty@),
{
    if str_eq(ty, "float") {
        String::from_str("float")
    } else if str_eq(ty, "vec2") {
        String::from_str("float2")
    } else if str_eq(ty, "vec3") {
        String::from_str("float3")
    } else if str_eq(ty, "vec4") {
        String::from_str("float4")
    } else if str_eq(ty, "mat2") {
        String::from_str("float2x2")
    } else if str_eq(ty, "mat3") {
        String::from_str("float3x3")
    } else if str_eq(ty, "mat4") {
        String::from_str("float4x4")
    } else if str_eq(ty, "texture2d") {
        String::from_str("Texture2D")
    } else {
        String::from_str(ty)
    }
}

/// One field line of a struct, given the upper-cased field name for the
/// semantic tag.
pub fn hlsl_struct_field(ty: &str, name: &str, semantic: &str, upper: &str) -> (r: String)
    ensures
        r@ == field_line(ty@, name@, semantic@, upper@),
{
    let mut out = String::from_str("  ");
    out.append(Cx::hlsl_type(ty).as_str());
    out.append(" ");
    out.append(name);
    if semantic.unicode_len() > 0 {
        out.append(": ");
        out.append(semantic);
        out.append(upper);
    }
    out.append(";\n");
    proof {
        assert(out@ =~= field_line(ty@, name@, semantic@, upper@));
    }
    out
}

/// Declares a struct (or a `cbuffer`) named `name` with one field per variable.
pub fn hlsl_assemble_struct(
    lead: &str,
    name: &str,
    vars: &Vec<ShVar>,
    semantic: &str,
    field: &str,
    post: &str,
) -> (r: String)
    ensures
        r@ == struct_decl(lead@, name@, view_vars(vars@), semantic@, field@, post@),
{
    let mut out = String::new();
    out.append(lead);
    out.append(" ");
    out.append(name);
    out.append(post);
    out.append("{\n");
    out.append(field);
    let ghost head = out@;
    let mut i: usize = 0;
    while i < vars.len()
        invariant
            i <= vars.len(),
            out@ == head + struct_fields(view_vars(vars@).take(i as int), semantic@),
        decreases vars.len() - i,
    {
        proof {
            assert(view_vars(vars@).take(i as int + 1).drop_last() =~= view_vars(vars@).take(i as int));
        }
        let var = &vars[i];
        let up = to_upper(var.name.as_str());
        let line = Cx::hlsl_struct_field(var.ty.as_str(), var.name.as_str(), semantic, up.as_str());
        out.append(line.as_str());
        proof {
            let f = struct_field(var@, semantic@);
            assert(out@ =~= head + struct_fields(view_vars(vars@).take(i as int), semantic@) + f);
        }
        i += 1;
    }
    out.append("};\n\n");
    proof {
        assert(view_vars(vars@).take(vars.len() as int) =~= view_vars(vars@));
    }
    out
}

/// A brace initialiser that sets each field to its type's zero; `field` leads.
pub fn hlsl_init_struct(vars: &Vec<ShVar>, field: &str) -> (r: String)
    ensures
        r@ == init_struct(view_vars(vars@), field@),
{
    let mut out = String::new();
    out.append("{\n");
    out.append(field);
    let ghost head = out@;
    let mut i: usize = 0;
    while i < vars.len()
        invariant
            i <= vars.len(),
            out@ == head + init_entries(view_vars(vars@).take(i as int)),
        decreases vars.len() - i,
    {
        proof {
            assert(view_vars(vars@).take(i as int + 1).drop_last() =~= view_vars(vars@).take(i as int));
        }
        let hty = Cx::hlsl_type(vars[i].ty.as_str());
        out.append(zero_literal(hty.as_str()));
        out.append(",");
        proof {
            assert(out@ =~= head + init_entries(view_vars(vars@).take(i as int + 1)));
        }
        i += 1;
    }
    out.append("}");
    proof {
        assert(view_vars(vars@).take(vars.len() as int) =~= view_vars(vars@));
    }
    out
}

/// Binds each texture to the register of its position in the list.
pub fn hlsl_assemble_texture_slots(textures: &Vec<ShVar>) -> (r: String)
    ensures
        r@ == texture_decls(view_vars(textures@)),
{
    let mut out = String::new();
    let mut i: usize = 0;
    while i < textures.len()
        invariant
            i <= textures.len(),
            out@ == texture_decls(view_vars(textures@).take(i as int)),
        decreases textures.len() - i,
    {
        proof {
            assert(view_vars(textures@).take(i as int + 1).drop_last() =~= view_vars(textures@).take(i as int));
        }
        out.append("Texture2D ");
        out.append(textures[i].name.as_str());
        out.append(": register(t");
        let n = decimal_string(i);
        out.append(n.as_str());
        out.append(");\n");
        proof {
            assert(out@ =~= texture_decls(view_vars(textures@).take(i as int + 1)));
        }
        i += 1;
    }
    proof {
        assert(view_vars(textures@).take(textures.len() as int) =~= view_vars(textures@));
    }
    out
}
}

/// A struct or block with no variables is still a complete declaration:
/// its braces, any fixed leading field, and nothing else.
pub proof fn lemma_empty_struct_well_formed(
    lead: Seq<char>,
    name: Seq<char>,
    semantic: Seq<char>,
    field: Seq<char>,
    post: Seq<char>,
)
    ensures
        struct_decl(lead, name, seq![], semantic, field, post) == lead + " "@ + name + post + "{\n"@ + field + "};\n\n"@,
        init_struct(seq![], field) == "{\n"@ + field + "}"@,
{
    assert(lead + " "@ + name + post + "{\n"@ + field + Seq::<char>::empty() =~= lead + " "@ + name + post + "{\n"@ + field);
    assert("{\n"@ + field + Seq::<char>::empty() =~= "{\n"@ + field);
}

} // verus!
