//! Slot layout of variable lists, vertex input elements and the
//! rectangle-instance descriptor.

use vstd::prelude::*;
use crate::shader::{ShVar, ShVarView, SlErr, is_data_type, slot_sum, slots_of_type, type_slots, view_vars};
use crate::text::{str_eq, to_upper, upper_of};

verus! {

/// One laid-out variable: its slot count and its offset in slots.
#[derive(Debug)]
pub struct NamedProp {
    pub name: String,
    pub ty: String,
    pub offset: usize,
    pub slots: usize,
}

/// The layout of a list of variables, in declaration order.
#[derive(Debug)]
pub struct NamedProps {
    pub props: Vec<NamedProp>,
    pub total_slots: usize,
}

/// The offset of entry `i`: the slots of all entries before it.
pub open spec fn layout_offset(vs: Seq<ShVarView>, i: int) -> nat {
    slot_sum(vs.take(i))
}

/// Every variable has a type that occupies data slots.
pub open spec fn all_data(vs: Seq<ShVarView>) -> bool {
    forall|i: int| 0 <= i < vs.len() ==> is_data_type(#[trigger] vs[i].ty)
}

/// `np` lays out `vs`: one entry per variable, offsets by a forward pass.
pub open spec fn lays_out(np: &NamedProps, vs: Seq<ShVarView>) -> bool {
    &&& np.props@.len() == vs.len()
    &&& np.total_slots == slot_sum(vs)
    &&& forall|i: int| 0 <= i < vs.len() ==> {
        &&& (#[trigger] np.props@[i]).name@ == vs[i].name
        &&& np.props@[i].ty@ == vs[i].ty
        &&& np.props@[i].slots == type_slots(vs[i].ty)
        &&& np.props@[i].offset == layout_offset(vs, i)
    }
}

proof fn lemma_slot_sum_bound(vs: Seq<ShVarView>)
    ensures
        slot_sum(vs) <= 16 * vs.len(),
    decreases vs.len(),
{
    if vs.len() > 0 {
        lemma_slot_sum_bound(vs.drop_last());
    }
}

impl NamedProps {
    /// Lays out variables contiguously in declaration order. Fails with
    /// `UnsupportedType`, naming the first variable whose type holds no data.
    pub fn construct(vars: &Vec<ShVar>) -> (r: Result<NamedProps, SlErr>)
        requires
            vars@.len() <= usize::MAX / 16,
        ensures
            r is Ok <==> all_data(view_vars(vars@)),
            r matches Ok(np) ==> lays_out(&np, view_vars(vars@)),
            r matches Err(e) ==> e is UnsupportedType,
            r matches Err(e) ==> e matches SlErr::UnsupportedType { name } && exists|i: int| 0 <= i < vars@.len()
                && (#[trigger] vars@[i]).name@ == name@ && !is_data_type(vars@[i].ty@),
    {
        let ghost vs = view_vars(vars@);
        let mut props: Vec<NamedProp> = Vec::new();
        let mut offset: usize = 0;
        let mut i: usize = 0;
        while i < vars.len()
            invariant
                i <= vars@.len(),
                vars@.len() <= usize::MAX / 16,
                vs == view_vars(vars@),
                offset == slot_sum(vs.take(i as int)),
                offset <= 16 * i,
                props@.len() == i,
                forall|j: int| 0 <= j < i ==> is_data_type(#[trigger] vs[j].ty),
                forall|j: int| 0 <= j < i ==> {
                    &&& (#[trigger] props@[j]).name@ == vs[j].name
                    &&& props@[j].ty@ == vs[j].ty
                    &&& props@[j].slots == type_slots(vs[j].ty)
                    &&& props@[j].offset == layout_offset(vs, j)
                },
            decreases vars@.len() - i,
        {
            proof {
                assert(vs.take(i as int + 1).drop_last() =~= vs.take(i as int));
            }
            let slots = slots_of_type(vars[i].ty.as_str());
            if slots == 0 {
                proof {
                    assert(!is_data_type(vs[i as int].ty));
                }
                let name = vars[i].name.clone();
                proof {
                    assert(vars@[i as int].name@ == name@);
                }
                return Err(SlErr::UnsupportedType { name });
            }
            props.push(NamedProp { name: vars[i].name.clone(), ty: vars[i].ty.clone(), offset, slots });
            offset = offset + slots;
            i += 1;
        }
        proof {
            assert(vs.take(vars@.len() as int) =~= vs);
        }
        Ok(NamedProps { props, total_slots: offset })
    }
}

/// The offset of the first `float` entry with this name.
pub open spec fn float_offset(props: Seq<NamedProp>, name: Seq<char>) -> Option<usize>
    decreases props.len(),
{
    if props.len() == 0 {
        None
    } else if props[0].name@ == name && props[0].ty@ == "float"@ {
        Some(props[0].offset)
    } else {
        float_offset(props.drop_first(), name)
    }
}

/// The instance slots of a rectangle drawn as a quad: the `float` instance
/// variables named `x`, `y`, `w` and `h`, where present.
#[derive(Debug)]
pub struct RectInstanceProps {
    pub x: Option<usize>,
    pub y: Option<usize>,
    pub w: Option<usize>,
    pub h: Option<usize>,
}

fn find_float(props: &Vec<NamedProp>, name: &str) -> (r: Option<usize>)
    ensures
        r == float_offset(props@, name@),
{
    let mut i: usize = 0;
    proof {
        assert(props@.skip(0) =~= props@);
    }
    while i < props.len()
        invariant
            i <= props@.len(),
            float_offset(props@, name@) == float_offset(props@.skip(i as int), name@),
        decreases props@.len() - i,
    {
        if str_eq(props[i].name.as_str(), name) && str_eq(props[i].ty.as_str(), "float") {
            return Some(props[i].offset);
        }
        proof {
            assert(props@.skip(i as int).drop_first() =~= props@.skip(i as int + 1));
        }
        i += 1;
    }
    None
}

impl RectInstanceProps {
    /// Finds the rectangle fields among the laid-out instance variables.
    pub fn construct(instances: &NamedProps) -> (r: RectInstanceProps)
        ensures
            r.x == float_offset(instances.props@, "x"@),
            r.y == float_offset(instances.props@, "y"@),
            r.w == float_offset(instances.props@, "w"@),
            r.h == float_offset(instances.props@, "h"@),
    {
        RectInstanceProps {
            x: find_float(&instances.props, "x"),
            y: find_float(&instances.props, "y"),
            w: find_float(&instances.props, "w"),
            h: find_float(&instances.props, "h"),
        }
    }
}

/// The numeric format of a vertex input of 1 to 4 scalar slots.
#[derive(Clone, Copy, Debug, PartialEq, Eq, Structural)]
pub enum VertexFormat {
    R32Float,
    R32G32Float,
    R32G32B32Float,
    R32G32B32A32Float,
}

pub open spec fn format_of(slots: nat) -> Option<VertexFormat> {
    if slots == 1 {
        Some(VertexFormat::R32Float)
    } else if slots == 2 {
        Some(VertexFormat::R32G32Float)
    } else if slots == 3 {
        Some(VertexFormat::R32G32B32Float)
    } else if slots == 4 {
        Some(VertexFormat::R32G32B32A32Float)
    } else {
        None
    }
}

/// The vertex input format of a slot count; none beyond four slots.
pub fn slots_to_format(slots: usize) -> (r: Option<VertexFormat>)
    ensures
        r == format_of(slots as nat),
{
    if slots == 1 {
        Some(VertexFormat::R32Float)
    } else if slots == 2 {
        Some(VertexFormat::R32G32Float)
    } else if slots == 3 {
        Some(VertexFormat::R32G32B32Float)
    } else if slots == 4 {
        Some(VertexFormat::R32G32B32A32Float)
    } else {
        None
    }
}

/// One element of a vertex input layout.
#[derive(Debug)]
pub struct InputElement {
    pub semantic: String,
    pub format: VertexFormat,
    pub input_slot: u32,
    pub byte_offset: usize,
    pub per_instance: bool,
    pub step_rate: u32,
}

/// `e` describes `p`: geometry in buffer 0 per vertex, instances in buffer 1
/// per instance, 4 bytes a slot.
pub open spec fn describes(e: &InputElement, p: &NamedProp, per_instance: bool) -> bool {
    &&& e.semantic@ == (if per_instance { "INST_"@ } else { "GEOM_"@ }) + upper_of(p.name@)
    &&& Some(e.format) == format_of(p.slots as nat)
    &&& e.input_slot == (if per_instance { 1u32 } else { 0u32 })
    &&& e.byte_offset == 4 * p.offset
    &&& e.per_instance == per_instance
    &&& e.step_rate == (if per_instance { 1u32 } else { 0u32 })
}

/// The input layout elements of laid-out geometry (or instance) variables.
/// Fails with `UnsupportedSlotWidth` on the first variable of more than four slots.
pub fn input_elements(np: &NamedProps, per_instance: bool) -> (r: Result<Vec<InputElement>, SlErr>)
    requires
        forall|i: int| 0 <= i < np.props@.len() ==> (#[trigger] np.props@[i]).offset <= usize::MAX / 4,
    ensures
        r is Ok <==> forall|i: int| 0 <= i < np.props@.len() ==> format_of((#[trigger] np.props@[i]).slots as nat) is Some,
        r matches Ok(v) ==> v@.len() == np.props@.len() && forall|i: int| 0 <= i < v@.len() ==> describes(
            #[trigger] &v@[i],
            &np.props@[i],
            per_instance,
        ),
        r matches Err(e) ==> e is UnsupportedSlotWidth,
        r matches Err(e) ==> e matches SlErr::UnsupportedSlotWidth { name, slots } && exists|i: int| 0 <= i < np.props@.len()
            && (#[trigger] np.props@[i]).name@ == name@ && np.props@[i].slots == slots && format_of(slots as nat) is None,
{
    let mut out: Vec<InputElement> = Vec::new();
    let mut i: usize = 0;
    while i < np.props.len()
        invariant
            i <= np.props@.len(),
            forall|j: int| 0 <= j < np.props@.len() ==> (#[trigger] np.props@[j]).offset <= usize::MAX / 4,
            out@.len() == i,
            forall|j: int| 0 <= j < i ==> format_of((#[trigger] np.props@[j]).slots as nat) is Some,
            forall|j: int| 0 <= j < i ==> describes(#[trigger] &out@[j], &np.props@[j], per_instance),
        decreases np.props@.len() - i,
    {
        let p = &np.props[i];
        let format = match slots_to_format(p.slots) {
            Some(f) => f,
            None => {
                let name = p.name.clone();
                proof {
                    assert(np.props@[i as int].name@ == name@);
                }
                return Err(SlErr::UnsupportedSlotWidth { name, slots: p.slots });
            },
        };
        let mut semantic = if per_instance {
            String::from_str("INST_")
        } else {
            String::from_str("GEOM_")
        };
        semantic.append(to_upper(p.name.as_str()).as_str());
        out.push(InputElement {
            semantic,
            format,
            input_slot: if per_instance { 1 } else { 0 },
            byte_offset: 4 * p.offset,
            per_instance,
            step_rate: if per_instance { 1 } else { 0 },
        });
        i += 1;
    }
    Ok(out)
}

/// The layout calculator's offsets are strictly increasing, entries do not
/// overlap, and the slot counts add up to the total.
pub proof fn lemma_layout_contiguous(vs: Seq<ShVarView>)
    requires
        all_data(vs),
    ensures
        forall|i: int, j: int| 0 <= i < j < vs.len() ==> #[trigger] layout_offset(vs, i) + type_slots(vs[i].ty)
            <= #[trigger] layout_offset(vs, j),
        forall|i: int, j: int| 0 <= i < j < vs.len() ==> #[trigger] layout_offset(vs, i) < #[trigger] layout_offset(vs, j),
        forall|i: int| 0 <= i < vs.len() ==> #[trigger] layout_offset(vs, i + 1) == layout_offset(vs, i) + type_slots(vs[i].ty),
        layout_offset(vs, vs.len() as int) == slot_sum(vs),
    decreases vs.len(),
{
    assert(vs.take(vs.len() as int) =~= vs);
    assert forall|i: int| 0 <= i < vs.len() implies #[trigger] layout_offset(vs, i + 1) == layout_offset(vs, i) + type_slots(vs[i].ty) by {
        assert(vs.take(i + 1).drop_last() =~= vs.take(i));
    }
    assert forall|i: int, j: int| 0 <= i < j < vs.len() implies #[trigger] layout_offset(vs, i) + type_slots(vs[i].ty)
        <= #[trigger] layout_offset(vs, j) by {
        lemma_offset_monotone(vs, i + 1, j);
        assert(vs.take(i + 1).drop_last() =~= vs.take(i));
    }
    assert forall|i: int, j: int| 0 <= i < j < vs.len() implies #[trigger] layout_offset(vs, i) < #[trigger] layout_offset(vs, j) by {
        lemma_offset_monotone(vs, i + 1, j);
        assert(vs.take(i + 1).drop_last() =~= vs.take(i));
        assert(is_data_type(vs[i].ty));
    }
}

proof fn lemma_offset_monotone(vs: Seq<ShVarView>, i: int, j: int)
    requires
        0 <= i <= j <= vs.len(),
    ensures
        layout_offset(vs, i) <= layout_offset(vs, j),
    decreases j - i,
{
    if i < j {
        lemma_offset_monotone(vs, i, j - 1);
        assert(vs.take(j).drop_last() =~= vs.take(j - 1));
    }
}

/// A layout of a list of at most `usize::MAX / 64` variables keeps every
/// offset within `usize::MAX / 4`.
pub proof fn lemma_layout_contiguous_bound(np: &NamedProps)
    requires
        exists|vs: Seq<ShVarView>| #[trigger] lays_out(np, vs) && vs.len() <= usize::MAX / 64,
    ensures
        forall|i: int| 0 <= i < np.props@.len() ==> (#[trigger] np.props@[i]).offset <= usize::MAX / 4,
{
    let vs = choose|vs: Seq<ShVarView>| #[trigger] lays_out(np, vs) && vs.len() <= usize::MAX / 64;
    assert forall|i: int| 0 <= i < np.props@.len() implies (#[trigger] np.props@[i]).offset <= usize::MAX / 4 by {
        lemma_slot_sum_bound(vs.take(i));
    }
}

} // verus!
