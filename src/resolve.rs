//! Function dependency resolution: the functions reachable from the entry
//! points, each once, every callee before its callers; recursion is refused.

use vstd::prelude::*;
use vstd::set_lib::{lemma_len_subset, lemma_map_size_bound, set_int_range, lemma_int_range};

verus! {

/// Every callee index names a function.
pub open spec fn graph_wf(g: Seq<Vec<usize>>) -> bool {
    forall|a: int, k: int| 0 <= a < g.len() && 0 <= k < g[a]@.len() ==> (#[trigger] g[a]@[k] as int) < g.len()
}

/// Function `a` calls function `b`.
pub open spec fn calls(g: Seq<Vec<usize>>, a: usize, b: usize) -> bool {
    (a as int) < g.len() && g[a as int]@.contains(b)
}

/// A non-empty chain of calls.
pub open spec fn is_path(g: Seq<Vec<usize>>, p: Seq<usize>) -> bool {
    p.len() > 0 && forall|i: int| 0 <= i < p.len() - 1 ==> #[trigger] calls(g, p[i], p[i + 1])
}

/// `b` is reached from `a` by zero or more calls.
pub open spec fn reaches(g: Seq<Vec<usize>>, a: usize, b: usize) -> bool {
    exists|p: Seq<usize>| #[trigger] is_path(g, p) && p[0] == a && p.last() == b
}

/// `b` is reached from one of the entry points.
pub open spec fn reachable(g: Seq<Vec<usize>>, entries: Seq<usize>, b: usize) -> bool {
    exists|i: int| 0 <= i < entries.len() && #[trigger] reaches(g, entries[i], b)
}

/// `a` calls into itself through one or more calls.
pub open spec fn on_cycle(g: Seq<Vec<usize>>, a: usize) -> bool {
    exists|p: Seq<usize>| #[trigger] is_path(g, p) && p.len() >= 2 && p[0] == a && p.last() == a
}

/// Some function reachable from the entry points is recursive.
pub open spec fn has_reachable_cycle(g: Seq<Vec<usize>>, entries: Seq<usize>) -> bool {
    exists|a: usize| #[trigger] reachable(g, entries, a) && on_cycle(g, a)
}

/// Every callee of a listed function is listed before it.
pub open spec fn callees_first(g: Seq<Vec<usize>>, order: Seq<usize>) -> bool {
    forall|k: int, c: usize| 0 <= k < order.len() && #[trigger] calls(g, order[k], c)
        ==> exists|m: int| 0 <= m < k && order[m] == c
}

/// The functions on the stack of expansions or already finished.
spec fn seen(stack: Seq<usize>, done: Seq<usize>, n: int) -> Set<int> {
    Set::new(|x: int| 0 <= x < n && (stack.contains(x as usize) || done.contains(x as usize)))
}

proof fn lemma_seen_bounded(stack: Seq<usize>, done: Seq<usize>, n: int)
    requires
        n >= 0,
    ensures
        seen(stack, done, n).finite(),
        seen(stack, done, n).len() <= n,
{
    lemma_int_range(0, n);
    assert(seen(stack, done, n).subset_of(set_int_range(0, n)));
    lemma_len_subset(seen(stack, done, n), set_int_range(0, n));
}

proof fn lemma_reach_step(g: Seq<Vec<usize>>, entries: Seq<usize>, a: usize, b: usize)
    requires
        reachable(g, entries, a),
        calls(g, a, b),
    ensures
        reachable(g, entries, b),
{
    let i = choose|i: int| 0 <= i < entries.len() && #[trigger] reaches(g, entries[i], a);
    let p = choose|p: Seq<usize>| #[trigger] is_path(g, p) && p[0] == entries[i] && p.last() == a;
    let q = p.push(b);
    assert forall|j: int| 0 <= j < q.len() - 1 implies #[trigger] calls(g, q[j], q[j + 1]) by {
        if j < p.len() - 1 {
            assert(calls(g, p[j], p[j + 1]));
        }
    }
    assert(is_path(g, q));
    assert(reaches(g, entries[i], b));
}

proof fn lemma_entry_reachable(g: Seq<Vec<usize>>, entries: Seq<usize>, i: int)
    requires
        0 <= i < entries.len(),
    ensures
        reachable(g, entries, entries[i]),
{
    let p = seq![entries[i]];
    assert(is_path(g, p));
    assert(reaches(g, entries[i], entries[i]));
}

/// The callee lists of a call graph.
pub open spec fn adj(g: Seq<Vec<usize>>) -> Seq<Seq<usize>> {
    g.map_values(|v: Vec<usize>| v@)
}

/// Depth-first resolution of `f`: its callees in call order, each before
/// its caller, skipping finished functions; `None` when a callee is still
/// being expanded (recursion). The result is the finished list after `f`.
pub open spec fn dfs_visit(g: Seq<Seq<usize>>, f: usize, stack: Seq<usize>, done: Seq<usize>) -> Option<Seq<usize>>
    decreases g.len() - stack.len(), 0int, 0int,
{
    if stack.len() >= g.len() || (f as int) >= g.len() {
        None
    } else {
        match dfs_children(g, f, 0, stack.push(f), done) {
            None => None,
            Some(d) => Some(d.push(f)),
        }
    }
}

/// Depth-first resolution of the callees of `f` from the `k`-th on.
pub open spec fn dfs_children(g: Seq<Seq<usize>>, f: usize, k: int, stack: Seq<usize>, done: Seq<usize>) -> Option<Seq<usize>>
    decreases g.len() - stack.len(), 1int, g[f as int].len() - k,
{
    if stack.len() > g.len() || (f as int) >= g.len() || k < 0 || k >= g[f as int].len() {
        Some(done)
    } else {
        let c = g[f as int][k];
        if stack.contains(c) {
            None
        } else if done.contains(c) {
            dfs_children(g, f, k + 1, stack, done)
        } else {
            match dfs_visit(g, c, stack, done) {
                None => None,
                Some(d) => dfs_children(g, f, k + 1, stack, d),
            }
        }
    }
}

/// The emission order of the entries from the `i`-th on: each unfinished
/// entry resolved depth-first in turn.
pub open spec fn dfs_order(g: Seq<Seq<usize>>, entries: Seq<usize>, i: int, done: Seq<usize>) -> Option<Seq<usize>>
    decreases entries.len() - i,
{
    if i < 0 || i >= entries.len() {
        Some(done)
    } else if done.contains(entries[i]) {
        dfs_order(g, entries, i + 1, done)
    } else {
        match dfs_visit(g, entries[i], seq![], done) {
            None => None,
            Some(d) => dfs_order(g, entries, i + 1, d),
        }
    }
}

/// The order in which the resolver emits the functions reached from `entries`.
pub open spec fn emission_order(g: Seq<Seq<usize>>, entries: Seq<usize>) -> Option<Seq<usize>> {
    dfs_order(g, entries, 0, seq![])
}

proof fn lemma_distinct_bounded(s: Seq<usize>, n: int)
    requires
        n >= 0,
        s.no_duplicates(),
        forall|i: int| 0 <= i < s.len() ==> (s[i] as int) < n,
    ensures
        s.len() <= n,
{
    lemma_int_range(0, n);
    let f = |i: int| i as usize;
    let y = set_int_range(0, n).map(f);
    lemma_map_size_bound(set_int_range(0, n), y, f);
    assert forall|x: usize| s.to_set().contains(x) implies y.contains(x) by {
        assert(set_int_range(0, n).contains(x as int));
        assert(f(x as int) == x);
    }
    lemma_len_subset(s.to_set(), y);
    s.unique_seq_to_set();
}

/// The stack of expansions in progress is a chain of calls of reachable functions.
spec fn stack_ok(g: Seq<Vec<usize>>, entries: Seq<usize>, stack: Seq<usize>) -> bool {
    &&& stack.no_duplicates()
    &&& forall|i: int| 0 <= i < stack.len() ==> (stack[i] as int) < g.len()
    &&& forall|i: int| 0 <= i < stack.len() ==> reachable(g, entries, #[trigger] stack[i])
    &&& forall|i: int| 0 <= i < stack.len() - 1 ==> #[trigger] calls(g, stack[i], stack[i + 1])
}

/// The finished functions: distinct, reachable, callees first, none in progress.
spec fn done_ok(g: Seq<Vec<usize>>, entries: Seq<usize>, stack: Seq<usize>, done: Seq<usize>) -> bool {
    &&& done.no_duplicates()
    &&& forall|i: int| 0 <= i < done.len() ==> (done[i] as int) < g.len()
    &&& forall|i: int| 0 <= i < done.len() ==> reachable(g, entries, #[trigger] done[i])
    &&& callees_first(g, done)
    &&& forall|x: usize| stack.contains(x) ==> !done.contains(x)
}

proof fn lemma_cycle_on_stack(g: Seq<Vec<usize>>, entries: Seq<usize>, stack: Seq<usize>, j: int)
    requires
        stack_ok(g, entries, stack),
        0 <= j < stack.len(),
        calls(g, stack.last(), stack[j]),
    ensures
        has_reachable_cycle(g, entries),
        on_cycle(g, stack[j]),
{
    let c = stack[j];
    let p = stack.subrange(j, stack.len() as int).push(c);
    assert forall|i: int| 0 <= i < p.len() - 1 implies #[trigger] calls(g, p[i], p[i + 1]) by {
        if i < p.len() - 2 {
            assert(calls(g, stack[j + i], stack[j + i + 1]));
        }
    }
    assert(is_path(g, p));
    assert(on_cycle(g, c));
    assert(reachable(g, entries, stack[j]));
}

fn holds(v: &Vec<usize>, x: usize) -> (r: bool)
    ensures
        r == v@.contains(x),
{
    let mut i: usize = 0;
    while i < v.len()
        invariant
            i <= v.len(),
            forall|j: int| 0 <= j < i ==> v@[j] != x,
        decreases v.len() - i,
    {
        if v[i] == x {
            return true;
        }
        i += 1;
    }
    false
}

fn visit(
    g: &Vec<Vec<usize>>,
    f: usize,
    stack: &mut Vec<usize>,
    done: &mut Vec<usize>,
    Ghost(entries): Ghost<Seq<usize>>,
    Ghost(budget): Ghost<nat>,
) -> (r: Result<(), usize>)
    requires
        budget == g@.len() - seen(old(stack)@, old(done)@, g@.len() as int).len(),
        graph_wf(g@),
        (f as int) < g@.len(),
        reachable(g@, entries, f),
        stack_ok(g@, entries, old(stack)@),
        old(stack)@.len() > 0 ==> calls(g@, old(stack)@.last(), f),
        !old(stack)@.contains(f),
        !old(done)@.contains(f),
        done_ok(g@, entries, old(stack)@, old(done)@),
    ensures
        r is Err ==> has_reachable_cycle(g@, entries),
        r matches Err(c) ==> (c as int) < g@.len() && on_cycle(g@, c),
        r is Err ==> dfs_visit(adj(g@), f, old(stack)@, old(done)@) is None,
        r is Ok ==> dfs_visit(adj(g@), f, old(stack)@, old(done)@) == Some(final(done)@),
        r is Ok ==> {
            &&& final(stack)@ == old(stack)@
            &&& done_ok(g@, entries, final(stack)@, final(done)@)
            &&& final(done)@.contains(f)
            &&& old(done)@.len() <= final(done)@.len()
            &&& final(done)@.subrange(0, old(done)@.len() as int) == old(done)@
        },
    decreases budget,
{
    let glen = g.len();
    let ghost n = g@.len() as int;
    let ghost stack0 = stack@;
    let ghost done0 = done@;
    proof {
        lemma_seen_bounded(stack0, done0, n);
    }
    stack.push(f);
    proof {
        assert(stack@.no_duplicates());
        assert forall|i: int| 0 <= i < stack@.len() implies (stack@[i] as int) < n by {
            if i < stack0.len() {
                assert(stack@[i] == stack0[i]);
            }
        }
        lemma_distinct_bounded(stack@, n);
        assert(dfs_visit(adj(g@), f, stack0, done0) == match dfs_children(adj(g@), f, 0, stack@, done0) {
            None => None,
            Some(d) => Some(d.push(f)),
        });
        assert forall|i: int| 0 <= i < stack@.len() - 1 implies #[trigger] calls(g@, stack@[i], stack@[i + 1]) by {
            if i < stack0.len() - 1 {
                assert(calls(g@, stack0[i], stack0[i + 1]));
            }
        }
        assert forall|x: int| #[trigger] seen(stack@, done@, n).contains(x) == seen(stack0, done0, n).insert(f as int).contains(x) by {
            if 0 <= x < n && x != f as int && stack@.contains(x as usize) {
                let v = choose|v: int| 0 <= v < stack@.len() && stack@[v] == x as usize;
                assert(stack0[v] == x as usize);
            }
            if 0 <= x < n && stack0.contains(x as usize) {
                let v = choose|v: int| 0 <= v < stack0.len() && stack0[v] == x as usize;
                assert(stack@[v] == x as usize);
            }
            if x == f as int {
                assert(stack@[stack0.len() as int] == f);
            }
        }
        assert(seen(stack@, done@, n) =~= seen(stack0, done0, n).insert(f as int));
        lemma_seen_bounded(stack@, done@, n);
    }
    let mut k: usize = 0;
    while k < g[f].len()
        invariant
            graph_wf(g@),
            n == g@.len(),
            (f as int) < n,
            reachable(g@, entries, f),
            k <= g@[f as int]@.len(),
            stack@ == stack0.push(f),
            stack_ok(g@, entries, stack@),
            done_ok(g@, entries, stack@, done@),
            done0.len() <= done@.len(),
            done@.subrange(0, done0.len() as int) == done0,
            forall|m: int| 0 <= m < k ==> done@.contains(#[trigger] g@[f as int]@[m]),
            seen(stack0, done0, n).len() < seen(stack@, done@, n).len(),
            seen(stack@, done@, n).finite(),
            seen(stack@, done@, n).len() <= n,
            budget == n - seen(stack0, done0, n).len(),
            stack@.len() <= n,
            stack0 == old(stack)@,
            done0 == old(done)@,
            dfs_children(adj(g@), f, 0, stack@, done0) == dfs_children(adj(g@), f, k as int, stack@, done@),
            dfs_visit(adj(g@), f, stack0, done0) == match dfs_children(adj(g@), f, 0, stack@, done0) {
                None => None,
                Some(d) => Some(d.push(f)),
            },
            seen(stack0, done0, n).finite(),
        decreases g@[f as int]@.len() - k,
    {
        let c = g[f][k];
        proof {
            assert((c as int) < n);
            assert(calls(g@, f, c));
            lemma_reach_step(g@, entries, f, c);
        }
        if holds(stack, c) {
            proof {
                assert(dfs_children(adj(g@), f, k as int, stack@, done@) is None);
                assert(dfs_children(adj(g@), f, 0, stack@, done0) is None);
                let j = choose|j: int| 0 <= j < stack@.len() && stack@[j] == c;
                lemma_cycle_on_stack(g@, entries, stack@, j);
            }
            return Err(c);
        }
        if holds(done, c) {
            proof {
                assert(dfs_children(adj(g@), f, k as int, stack@, done@) == dfs_children(adj(g@), f, k as int + 1, stack@, done@));
            }
        } else {
            let ghost done1 = done@;
            let ghost sk = stack@;
            proof {
                lemma_seen_bounded(stack@, done@, n);
            }
            let ghost b = (n - seen(stack@, done@, n).len()) as nat;
            let r = visit(g, c, stack, done, Ghost(entries), Ghost(b));
            if r.is_err() {
                proof {
                    assert(dfs_children(adj(g@), f, k as int, sk, done1) is None);
                    assert(dfs_children(adj(g@), f, 0, sk, done0) is None);
                    assert(sk == stack0.push(f));
                }
                return r;
            }
            proof {
                assert(dfs_children(adj(g@), f, k as int, sk, done1) == dfs_children(adj(g@), f, k as int + 1, sk, done@));
                assert forall|m: int| 0 <= m < k + 1 implies done@.contains(#[trigger] g@[f as int]@[m]) by {
                    if m < k {
                        let w = choose|w: int| 0 <= w < done1.len() && done1[w] == g@[f as int]@[m];
                        assert(done@[w] == done1[w]);
                    }
                }
                assert forall|w: int| 0 <= w < done0.len() implies done@[w] == done0[w] by {
                    assert(done@[w] == done1[w]);
                    assert(done1[w] == done1.subrange(0, done0.len() as int)[w]);
                }
                assert(done@.subrange(0, done0.len() as int) =~= done0);
                assert(seen(stack@, done1, n).subset_of(seen(stack@, done@, n))) by {
                    assert forall|x: int| seen(stack@, done1, n).contains(x) implies seen(stack@, done@, n).contains(x) by {
                        if done1.contains(x as usize) {
                            let w = choose|w: int| 0 <= w < done1.len() && done1[w] == x as usize;
                            assert(done@[w] == done1[w]);
                        }
                    }
                }
                lemma_seen_bounded(stack@, done@, n);
                lemma_len_subset(seen(stack@, done1, n), seen(stack@, done@, n));
            }
        }
        k += 1;
    }
    let ghost done2 = done@;
    proof {
        assert(dfs_children(adj(g@), f, k as int, stack@, done@) == Some(done@));
        assert(stack@[stack@.len() - 1] == f);
        assert(!done2.contains(f));
    }
    stack.pop();
    done.push(f);
    proof {
        assert(stack@ =~= stack0);
        assert(done@.subrange(0, done0.len() as int) =~= done0) by {
            assert forall|w: int| 0 <= w < done0.len() implies done@[w] == done0[w] by {
                assert(done2[w] == done2.subrange(0, done0.len() as int)[w]);
            }
        }
        assert forall|kk: int, c: usize| 0 <= kk < done@.len() && #[trigger] calls(g@, done@[kk], c)
            implies exists|m: int| 0 <= m < kk && done@[m] == c by {
            if kk < done2.len() {
                assert(calls(g@, done2[kk], c));
                let m = choose|m: int| 0 <= m < kk && done2[m] == c;
                assert(done@[m] == c);
            } else {
                let m0 = choose|m0: int| 0 <= m0 < g@[f as int]@.len() && g@[f as int]@[m0] == c;
                assert(done2.contains(g@[f as int]@[m0]));
                let m = choose|m: int| 0 <= m < done2.len() && done2[m] == c;
                assert(done@[m] == c);
            }
        }
        assert(done@.no_duplicates());
        assert forall|x: usize| stack@.contains(x) implies !done@.contains(x) by {
            if done@.contains(x) {
                let w = choose|w: int| 0 <= w < done@.len() && done@[w] == x;
                if w < done2.len() {
                    assert(done2.contains(x));
                    assert(stack0.push(f).contains(x)) by {
                        let v = choose|v: int| 0 <= v < stack0.len() && stack0[v] == x;
                        assert(stack0.push(f)[v] == x);
                    }
                }
            }
        }
        assert(done@[done@.len() - 1] == f);
    }
    Ok(())
}

/// The order in which to emit the functions reachable from `entries`: each
/// reachable function once, every callee before its callers. `Err` names a
/// function found calling into its own expansion.
pub fn resolve_fn_order(g: &Vec<Vec<usize>>, entries: &Vec<usize>) -> (r: Result<Vec<usize>, usize>)
    requires
        graph_wf(g@),
        forall|i: int| 0 <= i < entries@.len() ==> (entries@[i] as int) < g@.len(),
    ensures
        r is Err ==> has_reachable_cycle(g@, entries@),
        r matches Err(c) ==> (c as int) < g@.len() && on_cycle(g@, c),
        r is Err ==> emission_order(adj(g@), entries@) is None,
        r matches Ok(order) ==> emission_order(adj(g@), entries@) == Some(order@),
        r matches Ok(order) ==> {
            &&& order@.no_duplicates()
            &&& forall|i: int| 0 <= i < order@.len() ==> reachable(g@, entries@, #[trigger] order@[i])
            &&& forall|i: int| 0 <= i < entries@.len() ==> order@.contains(#[trigger] entries@[i])
            &&& callees_first(g@, order@)
        },
{
    let mut stack: Vec<usize> = Vec::new();
    let mut done: Vec<usize> = Vec::new();
    let mut i: usize = 0;
    while i < entries.len()
        invariant
            graph_wf(g@),
            i <= entries@.len(),
            forall|j: int| 0 <= j < entries@.len() ==> (entries@[j] as int) < g@.len(),
            stack@.len() == 0,
            done_ok(g@, entries@, stack@, done@),
            forall|j: int| 0 <= j < i ==> done@.contains(#[trigger] entries@[j]),
            emission_order(adj(g@), entries@) == dfs_order(adj(g@), entries@, i as int, done@),
        decreases entries@.len() - i,
    {
        let e = entries[i];
        proof {
            assert(stack@ =~= seq![]);
        }
        proof {
            lemma_entry_reachable(g@, entries@, i as int);
        }
        if !holds(&done, e) {
            let ghost done1 = done@;
            proof {
                lemma_seen_bounded(stack@, done@, g@.len() as int);
            }
            let ghost b = (g@.len() - seen(stack@, done@, g@.len() as int).len()) as nat;
            let r = visit(g, e, &mut stack, &mut done, Ghost(entries@), Ghost(b));
            if let Err(c) = r {
                proof {
                    assert(dfs_order(adj(g@), entries@, i as int, done1) is None);
                }
                return Err(c);
            }
            proof {
                assert forall|j: int| 0 <= j < i implies done@.contains(#[trigger] entries@[j]) by {
                    let w = choose|w: int| 0 <= w < done1.len() && done1[w] == entries@[j];
                    assert(done1[w] == done1.subrange(0, done1.len() as int)[w]);
                    assert(done@[w] == done1[w]);
                }
            }
        }
        i += 1;
    }
    Ok(done)
}

/// An order that lists `e` and lists every callee of each listed function
/// holds every function reached from `e`.
pub proof fn lemma_closed_order_reaches(g: Seq<Vec<usize>>, order: Seq<usize>, e: usize, x: usize)
    requires
        order.contains(e),
        callees_first(g, order),
        reaches(g, e, x),
    ensures
        order.contains(x),
{
    let p = choose|p: Seq<usize>| #[trigger] is_path(g, p) && p[0] == e && p.last() == x;
    lemma_closed_order_path(g, order, p, p.len() - 1);
}

proof fn lemma_closed_order_path(g: Seq<Vec<usize>>, order: Seq<usize>, p: Seq<usize>, k: int)
    requires
        is_path(g, p),
        order.contains(p[0]),
        callees_first(g, order),
        0 <= k < p.len(),
    ensures
        order.contains(p[k]),
    decreases k,
{
    if k > 0 {
        lemma_closed_order_path(g, order, p, k - 1);
        let j = k - 1;
        assert(calls(g, p[j], p[j + 1]));
        assert(j + 1 == k);
        let w = choose|w: int| 0 <= w < order.len() && order[w] == p[k - 1];
        assert(calls(g, order[w], p[k]));
        let m = choose|m: int| 0 <= m < w && order[m] == p[k];
    }
}

/// An emission order that lists the entries, repeats nothing and lists each
/// callee before its caller holds every function reached from the entries,
/// exactly once, and none reached from nowhere.
pub proof fn lemma_order_exactly_once(g: Seq<Vec<usize>>, entries: Seq<usize>, order: Seq<usize>, x: usize)
    requires
        order.no_duplicates(),
        callees_first(g, order),
        forall|i: int| 0 <= i < entries.len() ==> order.contains(#[trigger] entries[i]),
        reachable(g, entries, x),
    ensures
        exists|i: int| 0 <= i < order.len() && order[i] == x,
        forall|i: int, j: int| 0 <= i < order.len() && 0 <= j < order.len() && order[i] == x && order[j] == x ==> i == j,
{
    let k = choose|k: int| 0 <= k < entries.len() && #[trigger] reaches(g, entries[k], x);
    assert(order.contains(entries[k]));
    lemma_closed_order_reaches(g, order, entries[k], x);
}

} // verus!
