//! Dependencies between processes: every dependency must name a configured
//! process, and no process may depend on itself through a chain of dependencies.
use crate::config::{pid_of, ProcessConfig};
use vstd::prelude::*;

verus! {

/// Some configuration has the id `x`.
pub open spec fn has_id(procs: Seq<ProcessConfig>, x: Seq<char>) -> bool {
    exists|j: int| 0 <= j < procs.len() && pid_of(procs[j]) == x
}

/// The id of the `k`-th dependency of the `a`-th configuration.
pub open spec fn dep_id(procs: Seq<ProcessConfig>, a: int, k: int) -> Seq<char> {
    procs[a].depends_on@[k].0@
}

/// Every dependency names a configured process.
pub open spec fn deps_all_exist(procs: Seq<ProcessConfig>) -> bool {
    forall|a: int, k: int|
        0 <= a < procs.len() && 0 <= k < procs[a].depends_on@.len() ==> has_id(
            procs,
            #[trigger] dep_id(procs, a, k),
        )
}

/// The `b`-th configuration is the last one with its id: the one that
/// answers when the id is looked up.
pub open spec fn canonical(procs: Seq<ProcessConfig>, b: int) -> bool {
    0 <= b < procs.len() && forall|j: int|
        b < j < procs.len() ==> pid_of(#[trigger] procs[j]) != pid_of(procs[b])
}

/// `a` depends on `b`, `b` being the configuration that answers for the dependency's id.
pub open spec fn edge(procs: Seq<ProcessConfig>, a: int, b: int) -> bool {
    0 <= a < procs.len() && canonical(procs, b) && exists|k: int|
        0 <= k < procs[a].depends_on@.len() && #[trigger] dep_id(procs, a, k) == pid_of(procs[b])
}

/// A walk along dependencies.
pub open spec fn is_walk(procs: Seq<ProcessConfig>, p: Seq<int>) -> bool {
    p.len() >= 1 && forall|i: int| 0 <= i < p.len() - 1 ==> #[trigger] edge(procs, p[i], p[i + 1])
}

/// A walk that comes back to a configuration it has already passed.
pub open spec fn has_repeat(p: Seq<int>) -> bool {
    exists|i: int, j: int| 0 <= i < j < p.len() && p[i] == p[j]
}

/// A circular dependency can be reached from `a`.
pub open spec fn reaches_cycle(procs: Seq<ProcessConfig>, a: int) -> bool {
    exists|p: Seq<int>| is_walk(procs, p) && p[0] == a && has_repeat(p)
}

/// The configuration that answers for the id of the `i`-th one.
pub open spec fn node_of(procs: Seq<ProcessConfig>, i: int) -> int {
    choose|b: int| canonical(procs, b) && pid_of(procs[b]) == pid_of(procs[i])
}

/// A circular dependency can be reached from the `i`-th configuration.
pub open spec fn cyclic_root(procs: Seq<ProcessConfig>, i: int) -> bool {
    reaches_cycle(procs, node_of(procs, i))
}

/// Number of `true` entries.
pub open spec fn count_true(v: Seq<bool>) -> nat
    decreases v.len(),
{
    if v.len() == 0 {
        0
    } else {
        count_true(v.drop_last()) + if v.last() {
            1nat
        } else {
            0nat
        }
    }
}

proof fn lemma_count_bound(v: Seq<bool>)
    ensures
        count_true(v) <= v.len(),
    decreases v.len(),
{
    if v.len() > 0 {
        lemma_count_bound(v.drop_last());
    }
}

proof fn lemma_count_update(v: Seq<bool>, i: int)
    requires
        0 <= i < v.len(),
        !v[i],
    ensures
        count_true(v.update(i, true)) == count_true(v) + 1,
    decreases v.len(),
{
    let w = v.update(i, true);
    if i == v.len() - 1 {
        assert(w.drop_last() =~= v.drop_last());
    } else {
        assert(w.drop_last() =~= v.drop_last().update(i, true));
        lemma_count_update(v.drop_last(), i);
    }
}

/// Two configurations that both answer for one id are the same one.
proof fn lemma_canonical_unique(procs: Seq<ProcessConfig>, b1: int, b2: int)
    requires
        canonical(procs, b1),
        canonical(procs, b2),
        pid_of(procs[b1]) == pid_of(procs[b2]),
    ensures
        b1 == b2,
{
    if b1 < b2 {
        assert(pid_of(procs[b2]) != pid_of(procs[b1]));
    } else if b2 < b1 {
        assert(pid_of(procs[b1]) != pid_of(procs[b2]));
    }
}

/// The index of the last configuration with id `x`.
pub fn last_with_id(procs: &Vec<ProcessConfig>, x: &String) -> (r: Option<usize>)
    ensures
        r matches Some(b) ==> canonical(procs@, b as int) && pid_of(procs@[b as int]) == x@,
        r is None ==> !has_id(procs@, x@),
{
    let mut i: usize = procs.len();
    while i > 0
        invariant
            i <= procs.len(),
            forall|j: int| i <= j < procs.len() ==> pid_of(#[trigger] procs@[j]) != x@,
        decreases i,
    {
        if procs[i - 1].id.0 == *x {
            return Some(i - 1);
        }
        i = i - 1;
    }
    None
}

/// The finished configurations (visited, no longer on the stack) are closed
/// under dependencies, and their ranks decrease along dependencies.
pub open spec fn dfs_inv(
    procs: Seq<ProcessConfig>,
    visited: Seq<bool>,
    on_stack: Seq<bool>,
    rank: Seq<usize>,
    counter: usize,
) -> bool {
    let n = procs.len();
    &&& visited.len() == n
    &&& on_stack.len() == n
    &&& rank.len() == n
    &&& forall|x: int| 0 <= x < n && #[trigger] on_stack[x] ==> visited[x]
    &&& forall|x: int|
        0 <= x < n && #[trigger] visited[x] && !on_stack[x] ==> rank[x] < counter && forall|y: int|
            #[trigger] edge(procs, x, y) ==> visited[y] && !on_stack[y] && rank[y] < rank[x]
}

/// The stack holds exactly the configurations of `path`, a walk of answering configurations.
pub open spec fn stack_is(procs: Seq<ProcessConfig>, on_stack: Seq<bool>, path: Seq<int>) -> bool {
    &&& forall|x: int| 0 <= x < on_stack.len() ==> (on_stack[x] <==> path.contains(x))
    &&& forall|i: int| 0 <= i < path.len() ==> canonical(procs, #[trigger] path[i])
    &&& forall|i: int| 0 <= i < path.len() - 1 ==> #[trigger] edge(procs, path[i], path[i + 1])
}

proof fn lemma_finished_walk(
    procs: Seq<ProcessConfig>,
    visited: Seq<bool>,
    on_stack: Seq<bool>,
    rank: Seq<usize>,
    counter: usize,
    p: Seq<int>,
    i: int,
)
    requires
        dfs_inv(procs, visited, on_stack, rank, counter),
        is_walk(procs, p),
        0 <= p[0] < procs.len(),
        visited[p[0]] && !on_stack[p[0]],
        0 <= i < p.len(),
    ensures
        0 <= p[i] < procs.len(),
        visited[p[i]] && !on_stack[p[i]],
        i > 0 ==> rank[p[i]] < rank[p[i - 1]],
    decreases i,
{
    if i > 0 {
        let i2 = i - 1;
        lemma_finished_walk(procs, visited, on_stack, rank, counter, p, i2);
        assert(edge(procs, p[i2], p[i2 + 1]));
    }
}

proof fn lemma_walk_ranks(
    procs: Seq<ProcessConfig>,
    visited: Seq<bool>,
    on_stack: Seq<bool>,
    rank: Seq<usize>,
    counter: usize,
    p: Seq<int>,
    i: int,
    j: int,
)
    requires
        dfs_inv(procs, visited, on_stack, rank, counter),
        is_walk(procs, p),
        0 <= p[0] < procs.len(),
        visited[p[0]] && !on_stack[p[0]],
        0 <= i < j < p.len(),
    ensures
        rank[p[j]] < rank[p[i]],
    decreases j - i,
{
    lemma_finished_walk(procs, visited, on_stack, rank, counter, p, j);
    lemma_finished_walk(procs, visited, on_stack, rank, counter, p, i);
    if j > i + 1 {
        lemma_walk_ranks(procs, visited, on_stack, rank, counter, p, i, j - 1);
    }
}

/// No circular dependency can be reached from a finished configuration.
proof fn lemma_finished_acyclic(
    procs: Seq<ProcessConfig>,
    visited: Seq<bool>,
    on_stack: Seq<bool>,
    rank: Seq<usize>,
    counter: usize,
    a: int,
)
    requires
        dfs_inv(procs, visited, on_stack, rank, counter),
        0 <= a < procs.len(),
        visited[a] && !on_stack[a],
    ensures
        !reaches_cycle(procs, a),
{
    if reaches_cycle(procs, a) {
        let p = choose|p: Seq<int>| is_walk(procs, p) && p[0] == a && has_repeat(p);
        let (i, j) = choose|i: int, j: int| 0 <= i < j < p.len() && p[i] == p[j];
        lemma_walk_ranks(procs, visited, on_stack, rank, counter, p, i, j);
    }
}

/// Depth-first search from the answering configuration `c`: `true` when a
/// circular dependency is found.
fn has_cycle(
    procs: &Vec<ProcessConfig>,
    c: usize,
    visited: &mut Vec<bool>,
    on_stack: &mut Vec<bool>,
    rank: &mut Vec<usize>,
    counter: &mut usize,
    Ghost(path): Ghost<Seq<int>>,
) -> (r: bool)
    requires
        canonical(procs@, c as int),
        !old(visited)@[c as int],
        dfs_inv(procs@, old(visited)@, old(on_stack)@, old(rank)@, *old(counter)),
        stack_is(procs@, old(on_stack)@, path),
        path.len() > 0 ==> edge(procs@, path.last(), c as int),
        *old(counter) + path.len() == count_true(old(visited)@),
    ensures
        r ==> reaches_cycle(procs@, c as int),
        !r ==> {
            &&& dfs_inv(procs@, final(visited)@, final(on_stack)@, final(rank)@, *final(counter))
            &&& final(on_stack)@ == old(on_stack)@
            &&& final(visited)@[c as int]
            &&& forall|x: int| 0 <= x < procs.len() && old(visited)@[x] ==> #[trigger] final(visited)@[x]
            &&& forall|x: int|
                0 <= x < procs.len() && old(visited)@[x] && !old(on_stack)@[x] ==> #[trigger] final(rank)@[x]
                    == old(rank)@[x]
            &&& *final(counter) + path.len() == count_true(final(visited)@)
            &&& count_true(final(visited)@) > count_true(old(visited)@)
        },
    decreases procs.len() - count_true(old(visited)@),
{
    let ghost v0 = visited@;
    let ghost s0 = on_stack@;
    let ghost r0 = rank@;
    proof {
        lemma_count_update(visited@, c as int);
        lemma_count_bound(visited@.update(c as int, true));
    }
    visited.set(c, true);
    on_stack.set(c, true);
    let ghost path2 = path.push(c as int);
    assert(path2.last() == c as int);
    assert forall|x: int| 0 <= x < on_stack@.len() implies (on_stack@[x] <==> path2.contains(x)) by {
        if x == c as int {
            assert(path2[path.len() as int] == x);
        } else if path.contains(x) {
            let m = choose|m: int| 0 <= m < path.len() && path[m] == x;
            assert(path2[m] == x);
        } else if path2.contains(x) {
            let m = choose|m: int| 0 <= m < path2.len() && path2[m] == x;
            assert(path[m] == x);
        }
    }
    assert forall|i: int| 0 <= i < path2.len() - 1 implies #[trigger] edge(procs@, path2[i], path2[i + 1]) by {
        if i < path.len() - 1 {
            assert(path2[i] == path[i] && path2[i + 1] == path[i + 1]);
        } else {
            assert(path2[i] == path.last() && path2[i + 1] == c as int);
        }
    }
    assert(stack_is(procs@, on_stack@, path2));
    let deps_len = procs[c].depends_on.len();
    let mut k: usize = 0;
    while k < deps_len
        invariant
            deps_len == procs@[c as int].depends_on@.len(),
            canonical(procs@, c as int),
            visited@.len() == procs.len(),
            on_stack@.len() == procs.len(),
            rank@.len() == procs.len(),
            visited@[c as int],
            on_stack@ == s0.update(c as int, true),
            !s0[c as int],
            path2 == path.push(c as int),
            stack_is(procs@, on_stack@, path2),
            path.len() > 0 ==> edge(procs@, path.last(), c as int),
            forall|x: int| 0 <= x < procs.len() && #[trigger] on_stack@[x] ==> visited@[x],
            forall|x: int|
                0 <= x < procs.len() && #[trigger] visited@[x] && !on_stack@[x] ==> rank@[x] < *counter
                    && forall|y: int|
                    #[trigger] edge(procs@, x, y) ==> visited@[y] && !on_stack@[y] && rank@[y] < rank@[x],
            *counter + path2.len() == count_true(visited@),
            count_true(visited@) > count_true(v0),
            v0 == old(visited)@,
            !v0[c as int],
            s0.len() == procs.len(),
            count_true(visited@) <= procs.len(),
            forall|x: int| 0 <= x < procs.len() && v0[x] ==> #[trigger] visited@[x],
            forall|x: int|
                0 <= x < procs.len() && v0[x] && !s0[x] ==> #[trigger] rank@[x] == r0[x],
            forall|j: int, y: int|
                0 <= j < k && canonical(procs@, y) && #[trigger] dep_id(procs@, c as int, j) == pid_of(
                    #[trigger] procs@[y],
                ) ==> visited@[y] && !on_stack@[y] && rank@[y] < *counter,
        decreases deps_len - k,
    {
        let found = last_with_id(procs, &procs[c].depends_on[k].0);
        let d = match found {
            Some(d) => d,
            None => {
                proof {
                    assert forall|j: int, y: int|
                        0 <= j < k + 1 && canonical(procs@, y) && #[trigger] dep_id(procs@, c as int, j)
                            == pid_of(#[trigger] procs@[y]) implies visited@[y] && !on_stack@[y] && rank@[y]
                        < *counter by {
                        if j == k {
                            assert(has_id(procs@, dep_id(procs@, c as int, j)));
                        }
                    }
                }
                k = k + 1;
                continue;
            },
        };
        assert(dep_id(procs@, c as int, k as int) == pid_of(procs@[d as int]));
        assert(edge(procs@, c as int, d as int));
        if !visited[d] {
            proof {
                lemma_count_bound(visited@);
            }
            let ghost vb = visited@;
            let ghost sb = on_stack@;
            let ghost rb = rank@;
            let found_cycle = has_cycle(
                procs,
                d,
                visited,
                on_stack,
                rank,
                counter,
                Ghost(path2),
            );
            if found_cycle {
                proof {
                    let p = choose|p: Seq<int>|
                        is_walk(procs@, p) && p[0] == d as int && has_repeat(p);
                    let q = seq![c as int] + p;
                    assert forall|i: int| 0 <= i < q.len() - 1 implies #[trigger] edge(
                        procs@,
                        q[i],
                        q[i + 1],
                    ) by {
                        if i > 0 {
                            let i2 = i - 1;
                            assert(q[i] == p[i2] && q[i + 1] == p[i2 + 1]);
                            assert(edge(procs@, p[i2], p[i2 + 1]));
                        }
                    }
                    let (i, j) = choose|i: int, j: int| 0 <= i < j < p.len() && p[i] == p[j];
                    assert(q[i + 1] == q[j + 1]);
                    assert(is_walk(procs@, q) && q[0] == c as int && has_repeat(q));
                }
                return true;
            }
            proof {
                lemma_count_bound(visited@);
                assert forall|x: int| 0 <= x < procs.len() && v0[x] && !s0[x] implies #[trigger] rank@[x]
                    == r0[x] by {
                    assert(vb[x]);
                    assert(x != c as int);
                    assert(s0.update(c as int, true)[x] == s0[x]);
                    assert(!sb[x]);
                    assert(rb[x] == r0[x]);
                }
            }
        } else if on_stack[d] {
            proof {
                assert(path2.contains(d as int));
                let m = choose|m: int| 0 <= m < path2.len() && path2[m] == d as int;
                let q = seq![c as int] + path2.subrange(m, path2.len() as int);
                assert(q.last() == c as int);
                assert forall|i: int| 0 <= i < q.len() - 1 implies #[trigger] edge(
                    procs@,
                    q[i],
                    q[i + 1],
                ) by {
                    if i > 0 {
                        let j = m + i - 1;
                        assert(q[i] == path2[j] && q[i + 1] == path2[j + 1]);
                        assert(edge(procs@, path2[j], path2[j + 1]));
                    }
                }
                assert(q[0] == q[q.len() - 1]);
                assert(has_repeat(q));
            }
            return true;
        }
        proof {
            assert forall|j: int, y: int|
                0 <= j < k + 1 && canonical(procs@, y) && #[trigger] dep_id(procs@, c as int, j)
                    == pid_of(#[trigger] procs@[y]) implies visited@[y] && !on_stack@[y] && rank@[y]
                < *counter by {
                if j == k {
                    lemma_canonical_unique(procs@, y, d as int);
                }
            }
        }
        k = k + 1;
    }
    proof {
        lemma_count_bound(visited@);
    }
    on_stack.set(c, false);
    rank.set(c, *counter);
    *counter = *counter + 1;
    assert(on_stack@ =~= s0);
    assert forall|x: int|
        0 <= x < procs.len() && #[trigger] visited@[x] && !on_stack@[x] implies rank@[x] < *counter
        && forall|y: int|
        #[trigger] edge(procs@, x, y) ==> visited@[y] && !on_stack@[y] && rank@[y] < rank@[x] by {
        if x == c as int {
            assert forall|y: int| #[trigger] edge(procs@, x, y) implies visited@[y] && !on_stack@[y]
                && rank@[y] < rank@[x] by {
                let j = choose|j: int|
                    0 <= j < procs@[x].depends_on@.len() && #[trigger] dep_id(procs@, x, j)
                        == pid_of(procs@[y]);
                assert(dep_id(procs@, c as int, j) == pid_of(procs@[y]));
            }
        }
    }
    false
}

/// The refusal of a configuration with a circular dependency.
pub open spec fn cycle_refusal(id: Seq<char>) -> Seq<char> {
    "Circular dependency detected involving process '"@ + id + "'"@
}

/// Refuses a configuration in which a process depends on itself through a
/// chain of dependencies; the refusal names the first process, in the order of
/// the configuration, from which such a chain can be reached.
pub fn circular_refs(procs: &Vec<ProcessConfig>) -> (r: Result<(), String>)
    ensures
        r is Ok <==> forall|i: int| 0 <= i < procs.len() ==> !#[trigger] cyclic_root(procs@, i),
        r matches Err(e) ==> exists|i: int|
            0 <= i < procs.len() && #[trigger] cyclic_root(procs@, i) && (forall|j: int|
                0 <= j < i ==> !#[trigger] cyclic_root(procs@, j)) && e@ == cycle_refusal(
                pid_of(procs@[i]),
            ),
{
    let n = procs.len();
    let mut visited: Vec<bool> = Vec::new();
    let mut on_stack: Vec<bool> = Vec::new();
    let mut rank: Vec<usize> = Vec::new();
    let mut m: usize = 0;
    while m < n
        invariant
            m <= n,
            visited@ == Seq::new(m as nat, |x: int| false),
            on_stack@ == Seq::new(m as nat, |x: int| false),
            rank@ == Seq::new(m as nat, |x: int| 0usize),
        decreases n - m,
    {
        visited.push(false);
        on_stack.push(false);
        rank.push(0);
        m = m + 1;
    }
    let mut counter: usize = 0;
    proof {
        assert(count_true(visited@) == 0) by {
            lemma_count_all_false(visited@);
        }
    }
    let mut i: usize = 0;
    while i < n
        invariant
            n == procs.len(),
            i <= n,
            dfs_inv(procs@, visited@, on_stack@, rank@, counter),
            forall|x: int| 0 <= x < n ==> !#[trigger] on_stack@[x],
            counter == count_true(visited@),
            forall|j: int| 0 <= j < i ==> !#[trigger] cyclic_root(procs@, j),
        decreases n - i,
    {
        let c = match last_with_id(procs, &procs[i].id.0) {
            Some(c) => c,
            None => {
                assert(false);
                return Ok(());
            },
        };
        proof {
            let b = node_of(procs@, i as int);
            lemma_canonical_unique(procs@, b, c as int);
        }
        if !visited[c] {
            assert(stack_is(procs@, on_stack@, Seq::<int>::empty()));
            let found = has_cycle(
                procs,
                c,
                &mut visited,
                &mut on_stack,
                &mut rank,
                &mut counter,
                Ghost(Seq::<int>::empty()),
            );
            if found {
                let mut msg = String::from_str("Circular dependency detected involving process '");
                msg.append(procs[i].id.0.as_str());
                msg.append("'");
                assert(cyclic_root(procs@, i as int));
                return Err(msg);
            }
        }
        proof {
            lemma_finished_acyclic(procs@, visited@, on_stack@, rank@, counter, c as int);
        }
        i = i + 1;
    }
    Ok(())
}

proof fn lemma_count_all_false(v: Seq<bool>)
    requires
        forall|x: int| 0 <= x < v.len() ==> !v[x],
    ensures
        count_true(v) == 0,
    decreases v.len(),
{
    if v.len() > 0 {
        lemma_count_all_false(v.drop_last());
    }
}

/// A configuration that answers for its id is the one `node_of` gives.
proof fn lemma_node_of_canonical(procs: Seq<ProcessConfig>, b: int)
    requires
        canonical(procs, b),
    ensures
        node_of(procs, b) == b,
{
    let n = node_of(procs, b);
    assert(canonical(procs, b) && pid_of(procs[b]) == pid_of(procs[b]));
    lemma_canonical_unique(procs, n, b);
}

/// No circular dependency: when no configuration reaches a cycle, no walk
/// along dependencies passes any configuration twice.
pub proof fn law_no_walk_repeats(procs: Seq<ProcessConfig>, p: Seq<int>)
    requires
        forall|i: int| 0 <= i < procs.len() ==> !#[trigger] cyclic_root(procs, i),
        is_walk(procs, p),
        0 <= p[0] < procs.len(),
    ensures
        !has_repeat(p),
{
    if has_repeat(p) {
        let (i, j) = choose|i: int, j: int| 0 <= i < j < p.len() && p[i] == p[j];
        let k0 = j - 1;
        assert(edge(procs, p[k0], p[k0 + 1]));
        let b = p[j];
        assert(canonical(procs, b));
        lemma_node_of_canonical(procs, b);
        if i == 0 {
            assert(is_walk(procs, p) && p[0] == b && has_repeat(p));
            assert(reaches_cycle(procs, b));
            assert(cyclic_root(procs, b));
        } else {
            let q = p.subrange(1, p.len() as int);
            assert forall|k: int| 0 <= k < q.len() - 1 implies #[trigger] edge(procs, q[k], q[k + 1]) by {
                let m = k + 1;
                assert(edge(procs, p[m], p[m + 1]));
                assert(q[k] == p[m] && q[k + 1] == p[m + 1]);
            }
            assert(q[i - 1] == q[j - 1]);
            assert(has_repeat(q));
            let c = q[0];
            assert(edge(procs, p[0], p[1]));
            assert(canonical(procs, c));
            lemma_node_of_canonical(procs, c);
            assert(reaches_cycle(procs, c));
            assert(cyclic_root(procs, c));
        }
    }
}

} // verus!
