//! The shader program model and the variable classifier.

use vstd::prelude::*;
use crate::text::str_eq;

verus! {

/// Where a shader variable lives and how often it changes.
#[derive(Clone, Copy, Debug, PartialEq, Eq, Structural)]
pub enum ShVarStore {
    Geometry,
    Instance,
    Uniform,
    UniformDl,
    UniformCx,
    Varying,
    Local,
    Texture,
}

/// The pipeline stage a translation pass targets.
#[derive(Clone, Copy, Debug, PartialEq, Eq, Structural)]
pub enum SlTarget {
    Constant,
    Vertex,
    Pixel,
}

/// A declared shader variable: a name, a type name such as `vec2`, and its store.
#[derive(Debug)]
pub struct ShVar {
    pub name: String,
    pub ty: String,
    pub store: ShVarStore,
}

/// The mathematical value of a `ShVar`.
pub struct ShVarView {
    pub name: Seq<char>,
    pub ty: Seq<char>,
    pub store: ShVarStore,
}

impl View for ShVar {
    type V = ShVarView;

    open spec fn view(&self) -> ShVarView {
        ShVarView { name: self.name@, ty: self.ty@, store: self.store }
    }
}

/// The views of a list of variables.
pub open spec fn view_vars(vs: Seq<ShVar>) -> Seq<ShVarView> {
    vs.map_values(|v: ShVar| v@)
}

impl ShVar {
    pub fn new(name: &str, ty: &str, store: ShVarStore) -> (r: ShVar)
        ensures
            r.name@ == name@,
            r.ty@ == ty@,
            r.store == store,
    {
        ShVar { name: String::from_str(name), ty: String::from_str(ty), store }
    }

    /// A copy with the same name, type and store.
    pub fn duplicate(&self) -> (r: ShVar)
        ensures
            r@ == self@,
    {
        ShVar { name: self.name.clone(), ty: self.ty.clone(), store: self.store }
    }
}

/// The errors of compiling a shader. Each names the offending construct.
#[derive(Debug)]
pub enum SlErr {
    UnsupportedType { name: String },
    UnsupportedSlotWidth { name: String, slots: usize },
    UnknownIntrinsic { name: String },
    UnresolvedVariable { name: String },
    RecursiveCallDetected { name: String },
    ShaderCompileError { stage: SlTarget, message: String },
}

/// The scalar slot width of a type name; zero for textures and unknown names.
pub open spec fn type_slots(ty: Seq<char>) -> nat {
    if ty == "float"@ {
        1
    } else if ty == "vec2"@ {
        2
    } else if ty == "vec3"@ {
        3
    } else if ty == "vec4"@ || ty == "mat2"@ {
        4
    } else if ty == "mat3"@ {
        9
    } else if ty == "mat4"@ {
        16
    } else {
        0
    }
}

/// A type that occupies data slots (every primitive but a texture).
pub open spec fn is_data_type(ty: Seq<char>) -> bool {
    type_slots(ty) > 0
}

/// A primitive type the compiler supports.
pub open spec fn is_supported_type(ty: Seq<char>) -> bool {
    is_data_type(ty) || ty == "texture2d"@
}

/// The slot width of a type name.
pub fn slots_of_type(ty: &str) -> (r: usize)
    ensures
        r == type_slots(ty@),
{
    if str_eq(ty, "float") {
        1
    } else if str_eq(ty, "vec2") {
        2
    } else if str_eq(ty, "vec3") {
        3
    } else if str_eq(ty, "vec4") || str_eq(ty, "mat2") {
        4
    } else if str_eq(ty, "mat3") {
        9
    } else if str_eq(ty, "mat4") {
        16
    } else {
        0
    }
}

/// The variables of one store, in declaration order.
pub open spec fn vars_in(vs: Seq<ShVarView>, store: ShVarStore) -> Seq<ShVarView>
    decreases vs.len(),
{
    if vs.len() == 0 {
        seq![]
    } else {
        let rest = vars_in(vs.drop_last(), store);
        if vs.last().store == store {
            rest.push(vs.last())
        } else {
            rest
        }
    }
}

/// The total slot count of a list of variables.
pub open spec fn slot_sum(vs: Seq<ShVarView>) -> nat
    decreases vs.len(),
{
    if vs.len() == 0 {
        0
    } else {
        slot_sum(vs.drop_last()) + type_slots(vs.last().ty)
    }
}

/// A constant, already folded to its literal text.
#[derive(Debug)]
pub struct ShConst {
    pub name: String,
    pub ty: String,
    pub value: String,
}

/// Lists the variables of one store, in declaration order.
pub fn flat_vars(vars: &Vec<ShVar>, store: ShVarStore) -> (r: Vec<ShVar>)
    ensures
        view_vars(r@) == vars_in(view_vars(vars@), store),
{
    let mut r: Vec<ShVar> = Vec::new();
    let mut i: usize = 0;
    while i < vars.len()
        invariant
            i <= vars.len(),
            view_vars(r@) == vars_in(view_vars(vars@).take(i as int), store),
        decreases vars.len() - i,
    {
        proof {
            assert(view_vars(vars@).take(i as int + 1).drop_last() =~= view_vars(vars@).take(i as int));
        }
        if vars[i].store == store {
            r.push(vars[i].duplicate());
            proof {
                assert(view_vars(r@) =~= vars_in(view_vars(vars@).take(i as int), store).push(vars@[i as int]@));
            }
        }
        i += 1;
    }
    proof {
        assert(view_vars(vars@).take(vars.len() as int) =~= view_vars(vars@));
    }
    r
}

/// The total slot count of a list of variables.
pub fn compute_slot_total(vars: &Vec<ShVar>) -> (r: usize)
    requires
        vars@.len() <= usize::MAX / 16,
    ensures
        r == slot_sum(view_vars(vars@)),
{
    let mut total: usize = 0;
    let mut i: usize = 0;
    while i < vars.len()
        invariant
            i <= vars.len(),
            vars@.len() <= usize::MAX / 16,
            total == slot_sum(view_vars(vars@).take(i as int)),
            total <= 16 * i,
        decreases vars.len() - i,
    {
        proof {
            assert(view_vars(vars@).take(i as int + 1).drop_last() =~= view_vars(vars@).take(i as int));
        }
        total = total + slots_of_type(vars[i].ty.as_str());
        i += 1;
    }
    proof {
        assert(view_vars(vars@).take(vars.len() as int) =~= view_vars(vars@));
    }
    total
}

} // verus!
