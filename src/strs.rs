//! Lists of strings: views, lookups by name and joining.

use vstd::prelude::*;

verus! {

/// The views of a list of strings.
pub open spec fn strs(v: Seq<String>) -> Seq<Seq<char>> {
    v.map_values(|s: String| s@)
}

/// The texts joined with `", "` between them.
pub open spec fn join(ts: Seq<Seq<char>>) -> Seq<char>
    decreases ts.len(),
{
    if ts.len() == 0 {
        Seq::<char>::empty()
    } else if ts.len() == 1 {
        ts[0]
    } else {
        join(ts.drop_last()) + ", "@ + ts.last()
    }
}

/// The value paired with the first occurrence of `name`.
pub open spec fn lookup(pairs: Seq<(Seq<char>, Seq<char>)>, name: Seq<char>) -> Option<Seq<char>>
    decreases pairs.len(),
{
    if pairs.len() == 0 {
        None
    } else if pairs[0].0 == name {
        Some(pairs[0].1)
    } else {
        lookup(pairs.drop_first(), name)
    }
}

/// Joins strings with `", "` between them.
pub fn join_strings(v: &Vec<String>) -> (r: String)
    ensures
        r@ == join(strs(v@)),
{
    let mut out = String::new();
    let mut i: usize = 0;
    while i < v.len()
        invariant
            i <= v@.len(),
            out@ == join(strs(v@).take(i as int)),
        decreases v@.len() - i,
    {
        proof {
            assert(strs(v@).take(i as int + 1).drop_last() =~= strs(v@).take(i as int));
        }
        if i > 0 {
            out.append(", ");
        }
        out.append(v[i].as_str());
        proof {
            if i == 0 {
                assert(out@ =~= join(strs(v@).take(1)));
            } else {
                assert(out@ =~= join(strs(v@).take(i as int + 1)));
            }
        }
        i += 1;
    }
    proof {
        assert(strs(v@).take(v@.len() as int) =~= strs(v@));
    }
    out
}

/// A lookup past an entry of another name goes on to the next entry.
pub proof fn lemma_lookup_skip(pairs: Seq<(Seq<char>, Seq<char>)>, i: int, name: Seq<char>)
    requires
        0 <= i < pairs.len(),
        pairs[i].0 != name,
    ensures
        lookup(pairs.skip(i), name) == lookup(pairs.skip(i + 1), name),
{
    assert(pairs.skip(i).drop_first() =~= pairs.skip(i + 1));
}

/// A lookup from the start is the whole lookup; one past the end finds nothing.
pub proof fn lemma_lookup_end(pairs: Seq<(Seq<char>, Seq<char>)>, name: Seq<char>)
    ensures
        lookup(pairs.skip(pairs.len() as int), name) is None,
        lookup(pairs.skip(0), name) == lookup(pairs, name),
{
    assert(pairs.skip(0) =~= pairs);
}

} // verus!
