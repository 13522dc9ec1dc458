//! The translation context of one pass, and the HLSL rewrites of variable
//! references, intrinsic calls and matrix products.

use vstd::prelude::*;
use crate::shader::{ShVar, ShVarStore, ShVarView, SlTarget, view_vars};
use crate::hlsl_emit::hlsl_type_of;
use crate::registry::Cx;
use crate::text::{decimal, decimal_string, str_eq};

verus! {

/// A translated expression: its HLSL text and its shader type name.
#[derive(Debug)]
pub struct Sl {
    pub sl: String,
    pub ty: String,
}

/// How a backend treats an intrinsic call.
#[derive(Debug)]
pub enum MapCallResult {
    /// The whole call becomes this text, of this type.
    Rewrite(String, String),
    /// The call keeps its arguments under this name.
    Rename(String),
    /// The call has no backend-specific form.
    PassThrough,
}

pub enum MapCallView {
    Rewrite(Seq<char>, Seq<char>),
    Rename(Seq<char>),
    PassThrough,
}

impl View for MapCallResult {
    type V = MapCallView;

    open spec fn view(&self) -> MapCallView {
        match self {
            MapCallResult::Rewrite(s, t) => MapCallView::Rewrite(s@, t@),
            MapCallResult::Rename(n) => MapCallView::Rename(n@),
            MapCallResult::PassThrough => MapCallView::PassThrough,
        }
    }
}

/// The state of one translation pass: the stage, how generated functions are
/// declared and called, and the geometry and instance variables that the
/// pixel stage has read so far.
#[derive(Debug)]
pub struct SlCx {
    pub target: SlTarget,
    pub defargs_fn: String,
    pub defargs_call: String,
    pub call_prefix: String,
    pub auto_vary: Vec<ShVar>,
    /// The function being translated is shared with the pixel stage, which
    /// has no geometry or instance inputs to read.
    pub shared: bool,
}

/// The HLSL expression that reads a variable in a stage.
pub open spec fn var_access(v: ShVarView, target: SlTarget) -> Seq<char> {
    match v.store {
        ShVarStore::Uniform | ShVarStore::UniformDl | ShVarStore::UniformCx | ShVarStore::Texture => v.name,
        ShVarStore::Instance => if target == SlTarget::Pixel {
            "_vary."@ + v.name
        } else {
            "_inst."@ + v.name
        },
        ShVarStore::Geometry => if target == SlTarget::Pixel {
            "_vary."@ + v.name
        } else {
            "_geom."@ + v.name
        },
        ShVarStore::Local => "_loc."@ + v.name,
        ShVarStore::Varying => "_vary."@ + v.name,
    }
}

/// A geometry or instance variable read in the pixel stage must travel as a varying.
pub open spec fn promotes(v: ShVarView, target: SlTarget) -> bool {
    target == SlTarget::Pixel && (v.store == ShVarStore::Geometry || v.store == ShVarStore::Instance)
}

/// Some entry of the list has this name.
pub open spec fn has_name(av: Seq<ShVarView>, name: Seq<char>) -> bool {
    exists|j: int| 0 <= j < av.len() && (#[trigger] av[j]).name == name
}

/// The promoted variables after one more reference.
pub open spec fn auto_vary_step(av: Seq<ShVarView>, v: ShVarView, target: SlTarget) -> Seq<ShVarView> {
    if promotes(v, target) && !has_name(av, v.name) {
        av.push(v)
    } else {
        av
    }
}

/// The value of a hexadecimal digit, or -1.
pub open spec fn hex_val(c: char) -> int {
    if '0' <= c <= '9' {
        (c as u32) as int - ('0' as u32) as int
    } else if 'a' <= c <= 'f' {
        (c as u32) as int - ('a' as u32) as int + 10
    } else if 'A' <= c <= 'F' {
        (c as u32) as int - ('A' as u32) as int + 10
    } else {
        -1
    }
}

/// The channels (red, green, blue, alpha; 0 to 255) of `#rgb`, `#rgba`,
/// `#rrggbb` or `#rrggbbaa`.
pub open spec fn hex_color(s: Seq<char>) -> Option<Seq<int>> {
    if s.len() >= 1 && s[0] == '#' && (forall|i: int| 1 <= i < s.len() ==> hex_val(#[trigger] s[i]) >= 0) {
        let d = s.drop_first();
        if d.len() == 3 {
            Some(seq![17 * hex_val(d[0]), 17 * hex_val(d[1]), 17 * hex_val(d[2]), 255])
        } else if d.len() == 4 {
            Some(seq![17 * hex_val(d[0]), 17 * hex_val(d[1]), 17 * hex_val(d[2]), 17 * hex_val(d[3])])
        } else if d.len() == 6 {
            Some(seq![16 * hex_val(d[0]) + hex_val(d[1]), 16 * hex_val(d[2]) + hex_val(d[3]),
                16 * hex_val(d[4]) + hex_val(d[5]), 255])
        } else if d.len() == 8 {
            Some(seq![16 * hex_val(d[0]) + hex_val(d[1]), 16 * hex_val(d[2]) + hex_val(d[3]),
                16 * hex_val(d[4]) + hex_val(d[5]), 16 * hex_val(d[6]) + hex_val(d[7])])
        } else {
            None
        }
    } else {
        None
    }
}

/// One channel as an exact fraction of full intensity.
pub open spec fn channel_text(v: int) -> Seq<char> {
    decimal(v as nat) + ".0/255.0"@
}

/// The HLSL colour constant of four channels.
pub open spec fn color_text(c: Seq<int>) -> Seq<char> {
    "float4("@ + channel_text(c[0]) + ","@ + channel_text(c[1]) + ","@ + channel_text(c[2]) + ","@
        + channel_text(c[3]) + ")"@
}

/// The HLSL treatment of an intrinsic call with these argument texts.
pub open spec fn call_map(name: Seq<char>, args: Seq<Seq<char>>) -> MapCallView {
    if name == "sample2d"@ && args.len() >= 2 {
        MapCallView::Rewrite(args[0] + ".Sample(DefaultTextureSampler,"@ + args[1] + ")"@, "vec4"@)
    } else if name == "color"@ && args.len() >= 1 && hex_color(args[0]) is Some {
        MapCallView::Rewrite(color_text(hex_color(args[0])->Some_0), "vec4"@)
    } else if name == "mix"@ {
        MapCallView::Rename("lerp"@)
    } else if name == "dfdx"@ {
        MapCallView::Rename("ddx"@)
    } else if name == "dfdy"@ {
        MapCallView::Rename("ddy"@)
    } else {
        MapCallView::PassThrough
    }
}

/// The texts of a list of translated expressions.
pub open spec fn sl_texts(args: Seq<Sl>) -> Seq<Seq<char>> {
    args.map_values(|a: Sl| a.sl@)
}

fn hex_digit(c: char) -> (r: i64)
    ensures
        r as int == hex_val(c),
{
    if '0' <= c && c <= '9' {
        (c as u32 - '0' as u32) as i64
    } else if 'a' <= c && c <= 'f' {
        (c as u32 - 'a' as u32 + 10) as i64
    } else if 'A' <= c && c <= 'F' {
        (c as u32 - 'A' as u32 + 10) as i64
    } else {
        -1
    }
}

/// Reads a packed hexadecimal colour.
pub fn parse_hex_color(s: &str) -> (r: Option<Vec<u64>>)
    ensures
        match hex_color(s@) {
            Some(c) => r matches Some(v) && v@.len() == 4 && forall|i: int| 0 <= i < 4 ==> v@[i] as int == c[i],
            None => r is None,
        },
{
    let n = s.unicode_len();
    if n < 1 || s.get_char(0) != '#' {
        return None;
    }
    let mut d: Vec<u64> = Vec::new();
    let mut i: usize = 1;
    while i < n
        invariant
            n == s@.len(),
            1 <= i <= n,
            d@.len() == i - 1,
            forall|k: int| 1 <= k < i ==> hex_val(#[trigger] s@[k]) >= 0 && d@[k - 1] as int == hex_val(s@[k]),
        decreases n - i,
    {
        let h = hex_digit(s.get_char(i));
        if h < 0 {
            return None;
        }
        d.push(h as u64);
        i += 1;
    }
    let m = n - 1;
    let r = if m == 3 {
        vec![17 * d[0], 17 * d[1], 17 * d[2], 255]
    } else if m == 4 {
        vec![17 * d[0], 17 * d[1], 17 * d[2], 17 * d[3]]
    } else if m == 6 {
        vec![16 * d[0] + d[1], 16 * d[2] + d[3], 16 * d[4] + d[5], 255]
    } else if m == 8 {
        vec![16 * d[0] + d[1], 16 * d[2] + d[3], 16 * d[4] + d[5], 16 * d[6] + d[7]]
    } else {
        return None;
    };
    Some(r)
}

fn channel_string(v: u64) -> (r: String)
    requires
        v <= 255,
    ensures
        r@ == channel_text(v as int),
{
    let mut s = decimal_string(v as usize);
    s.append(".0/255.0");
    s
}

impl SlCx {
    /// Rewrites a reference to a variable for the current stage. In the pixel
    /// stage a geometry or instance variable is read from the varyings and
    /// recorded, once per name, for the vertex stage to copy.
    pub fn map_var(&mut self, var: &ShVar) -> (r: String)
        ensures
            r@ == var_access(var@, old(self).target),
            view_vars(final(self).auto_vary@) == auto_vary_step(view_vars(old(self).auto_vary@), var@, old(self).target),
            final(self).target == old(self).target,
            final(self).defargs_fn == old(self).defargs_fn,
            final(self).defargs_call == old(self).defargs_call,
            final(self).call_prefix == old(self).call_prefix,
            final(self).shared == old(self).shared,
    {
        match var.store {
            ShVarStore::Uniform | ShVarStore::UniformDl | ShVarStore::UniformCx | ShVarStore::Texture => var.name.clone(),
            ShVarStore::Instance | ShVarStore::Geometry => {
                if self.target == SlTarget::Pixel {
                    self.note_auto_vary(var);
                    let mut s = String::from_str("_vary.");
                    s.append(var.name.as_str());
                    s
                } else {
                    let mut s = if var.store == ShVarStore::Instance {
                        String::from_str("_inst.")
                    } else {
                        String::from_str("_geom.")
                    };
                    s.append(var.name.as_str());
                    s
                }
            },
            ShVarStore::Local => {
                let mut s = String::from_str("_loc.");
                s.append(var.name.as_str());
                s
            },
            ShVarStore::Varying => {
                let mut s = String::from_str("_vary.");
                s.append(var.name.as_str());
                s
            },
        }
    }

    fn note_auto_vary(&mut self, var: &ShVar)
        requires
            promotes(var@, old(self).target),
        ensures
            view_vars(final(self).auto_vary@) == auto_vary_step(view_vars(old(self).auto_vary@), var@, old(self).target),
            final(self).target == old(self).target,
            final(self).defargs_fn == old(self).defargs_fn,
            final(self).defargs_call == old(self).defargs_call,
            final(self).call_prefix == old(self).call_prefix,
            final(self).shared == old(self).shared,
    {
        let mut i: usize = 0;
        while i < self.auto_vary.len()
            invariant
                i <= self.auto_vary@.len(),
                forall|j: int| 0 <= j < i ==> (#[trigger] self.auto_vary@[j]).name@ != var.name@,
            decreases self.auto_vary@.len() - i,
        {
            if str_eq(self.auto_vary[i].name.as_str(), var.name.as_str()) {
                proof {
                    assert(view_vars(self.auto_vary@)[i as int].name == var.name@);
                }
                return;
            }
            i += 1;
        }
        proof {
            assert(!has_name(view_vars(self.auto_vary@), var.name@));
        }
        self.auto_vary.push(var.duplicate());
        proof {
            assert(view_vars(self.auto_vary@) =~= view_vars(old(self).auto_vary@).push(var@));
        }
    }

    /// Rewrites an intrinsic call: texture sampling and packed colours are
    /// rewritten whole and yield `vec4`; `mix`, `dfdx` and `dfdy` are renamed.
    /// `sample2d` takes a texture and a coordinate, `color` a packed colour.
    pub fn map_call(&self, name: &str, args: &Vec<Sl>) -> (r: MapCallResult)
        requires
            name@ == "sample2d"@ ==> args@.len() >= 2,
            name@ == "color"@ ==> args@.len() >= 1,
        ensures
            r@ == call_map(name@, sl_texts(args@)),
    {
        if str_eq(name, "sample2d") && args.len() >= 2 {
            let mut s = args[0].sl.clone();
            s.append(".Sample(DefaultTextureSampler,");
            s.append(args[1].sl.as_str());
            s.append(")");
            return MapCallResult::Rewrite(s, String::from_str("vec4"));
        }
        if str_eq(name, "color") && args.len() >= 1 {
            if let Some(c) = parse_hex_color(args[0].sl.as_str()) {
                let mut s = String::from_str("float4(");
                s.append(channel_string(c[0]).as_str());
                s.append(",");
                s.append(channel_string(c[1]).as_str());
                s.append(",");
                s.append(channel_string(c[2]).as_str());
                s.append(",");
                s.append(channel_string(c[3]).as_str());
                s.append(")");
                return MapCallResult::Rewrite(s, String::from_str("vec4"));
            }
        }
        if str_eq(name, "mix") {
            MapCallResult::Rename(String::from_str("lerp"))
        } else if str_eq(name, "dfdx") {
            MapCallResult::Rename(String::from_str("ddx"))
        } else if str_eq(name, "dfdy") {
            MapCallResult::Rename(String::from_str("ddy"))
        } else {
            MapCallResult::PassThrough
        }
    }

    /// A matrix product as an explicit call, left operand first.
    pub fn mat_mul(&self, left: &str, right: &str) -> (r: String)
        ensures
            r@ == "mul("@ + left@ + ","@ + right@ + ")"@,
    {
        let mut s = String::from_str("mul(");
        s.append(left);
        s.append(",");
        s.append(right);
        s.append(")");
        s
    }

    /// The HLSL spelling of a type name.
    pub fn map_type(&self, ty: &str) -> (r: String)
        ensures
            r@ == hlsl_type_of(ty@),
    {
        Cx::hlsl_type(ty)
    }
}

/// No two entries share a name.
pub open spec fn unique_names(av: Seq<ShVarView>) -> bool {
    forall|i: int, j: int| 0 <= i < j < av.len() ==> (#[trigger] av[i]).name != (#[trigger] av[j]).name
}

/// Every entry is a geometry or instance variable.
pub open spec fn all_inputs(av: Seq<ShVarView>) -> bool {
    forall|i: int| 0 <= i < av.len() ==> (#[trigger] av[i]).store == ShVarStore::Geometry || av[i].store == ShVarStore::Instance
}

/// The promoted variables after a sequence of references.
pub open spec fn promote_all(av: Seq<ShVarView>, refs: Seq<ShVarView>, target: SlTarget) -> Seq<ShVarView>
    decreases refs.len(),
{
    if refs.len() == 0 {
        av
    } else {
        auto_vary_step(promote_all(av, refs.drop_last(), target), refs.last(), target)
    }
}

/// One more reference keeps the promoted variables distinct by name and
/// made of geometry and instance variables only.
pub proof fn lemma_step_keeps_unique(av: Seq<ShVarView>, v: ShVarView, target: SlTarget)
    requires
        unique_names(av),
        all_inputs(av),
    ensures
        unique_names(auto_vary_step(av, v, target)),
        all_inputs(auto_vary_step(av, v, target)),
        promotes(v, target) ==> has_name(auto_vary_step(av, v, target), v.name),
        forall|n: Seq<char>| has_name(av, n) ==> has_name(auto_vary_step(av, v, target), n),
{
    let r = auto_vary_step(av, v, target);
    if promotes(v, target) && !has_name(av, v.name) {
        assert(r[av.len() as int] == v);
        assert forall|n: Seq<char>| has_name(av, n) implies has_name(r, n) by {
            let j = choose|j: int| 0 <= j < av.len() && (#[trigger] av[j]).name == n;
            assert(r[j] == av[j]);
        }
    }
}

/// A geometry or instance variable read in the pixel stage is promoted
/// exactly once, however many times it is read.
pub proof fn lemma_promoted_once(refs: Seq<ShVarView>, k: int)
    requires
        0 <= k < refs.len(),
        promotes(refs[k], SlTarget::Pixel),
    ensures
        exists|j: int| 0 <= j < promote_all(seq![], refs, SlTarget::Pixel).len() && (#[trigger] promote_all(seq![], refs, SlTarget::Pixel)[j]).name == refs[k].name,
        forall|i: int, j: int| 0 <= i < promote_all(seq![], refs, SlTarget::Pixel).len() && 0 <= j < promote_all(seq![], refs, SlTarget::Pixel).len()
            && (#[trigger] promote_all(seq![], refs, SlTarget::Pixel)[i]).name == refs[k].name
            && (#[trigger] promote_all(seq![], refs, SlTarget::Pixel)[j]).name == refs[k].name ==> i == j,
{
    lemma_promote_all(refs, k);
    let av = promote_all(seq![], refs, SlTarget::Pixel);
    assert(has_name(av, refs[k].name));
}

proof fn lemma_promote_all(refs: Seq<ShVarView>, k: int)
    requires
        0 <= k < refs.len(),
        promotes(refs[k], SlTarget::Pixel),
    ensures
        unique_names(promote_all(seq![], refs, SlTarget::Pixel)),
        all_inputs(promote_all(seq![], refs, SlTarget::Pixel)),
        has_name(promote_all(seq![], refs, SlTarget::Pixel), refs[k].name),
    decreases refs.len(),
{
    lemma_promote_all_unique(refs.drop_last());
    let prev = promote_all(seq![], refs.drop_last(), SlTarget::Pixel);
    lemma_step_keeps_unique(prev, refs.last(), SlTarget::Pixel);
    if k < refs.len() - 1 {
        lemma_promote_all(refs.drop_last(), k);
    }
}

proof fn lemma_promote_all_unique(refs: Seq<ShVarView>)
    ensures
        unique_names(promote_all(seq![], refs, SlTarget::Pixel)),
        all_inputs(promote_all(seq![], refs, SlTarget::Pixel)),
    decreases refs.len(),
{
    if refs.len() > 0 {
        lemma_promote_all_unique(refs.drop_last());
        lemma_step_keeps_unique(promote_all(seq![], refs.drop_last(), SlTarget::Pixel), refs.last(), SlTarget::Pixel);
    }
}

/// One more reference keeps every promoted name and promotes the variable
/// itself where it must travel as a varying.
pub proof fn lemma_step_monotone(av: Seq<ShVarView>, v: ShVarView, target: SlTarget)
    ensures
        promotes(v, target) ==> has_name(auto_vary_step(av, v, target), v.name),
        forall|n: Seq<char>| has_name(av, n) ==> has_name(auto_vary_step(av, v, target), n),
{
    let r = auto_vary_step(av, v, target);
    if promotes(v, target) && !has_name(av, v.name) {
        assert(r[av.len() as int] == v);
        assert forall|n: Seq<char>| has_name(av, n) implies has_name(r, n) by {
            let j = choose|j: int| 0 <= j < av.len() && (#[trigger] av[j]).name == n;
            assert(r[j] == av[j]);
        }
    }
}

} // verus!
