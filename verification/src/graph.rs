//! Directed graphs as adjacency lists, and a depth-first search that either
//! returns a cycle or establishes that the graph has none.

use vstd::prelude::*;

verus! {

/// Mark of a node during the depth-first search.
#[derive(Clone, Copy, Debug, PartialEq, Eq, Structural)]
pub enum Mark {
    Unvisited,
    InProgress,
    Done,
}

/// `u -> v` is an edge: both are nodes, and `v` is listed under `u`.
/// Entries that name no node are not edges.
pub open spec fn has_edge(adj: Seq<Vec<usize>>, u: usize, v: usize) -> bool {
    u < adj.len() && v < adj.len() && adj[u as int]@.contains(v)
}

/// Position that follows `i` on a closed walk of `len` nodes.
pub open spec fn next_pos(i: int, len: int) -> int {
    if i + 1 == len {
        0
    } else {
        i + 1
    }
}

/// `c` is a closed walk: it is not empty, each node has an edge to the one
/// after it, and the last has an edge to the first.
pub open spec fn is_cycle(adj: Seq<Vec<usize>>, c: Seq<usize>) -> bool {
    c.len() > 0 && forall|i: int|
        0 <= i < c.len() ==> has_edge(adj, #[trigger] c[i], c[next_pos(i, c.len() as int)])
}

/// The graph has at least one cycle.
pub open spec fn cyclic(adj: Seq<Vec<usize>>) -> bool {
    exists|c: Seq<usize>| is_cycle(adj, c)
}

/// State of the search between two steps. The stack is the walk from the
/// root to the node in hand; exactly its nodes are in progress; no cycle
/// passes through a node that is done.
spec fn search_inv(adj: Seq<Vec<usize>>, marks: Seq<Mark>, stack: Seq<usize>) -> bool {
    &&& marks.len() == adj.len()
    &&& stack.no_duplicates()
    &&& forall|i: int|
        0 <= i < stack.len() ==> (#[trigger] stack[i]) < adj.len() && marks[stack[i] as int]
            == Mark::InProgress
    &&& forall|u: usize|
        u < adj.len() && #[trigger] marks[u as int] == Mark::InProgress ==> stack.contains(u)
    &&& forall|i: int|
        0 <= i < stack.len() - 1 ==> has_edge(adj, #[trigger] stack[i], stack[i + 1])
    &&& forall|c: Seq<usize>, i: int|
        is_cycle(adj, c) && 0 <= i < c.len() ==> marks[(#[trigger] c[i]) as int] != Mark::Done
}

/// Marks that were set stay as they were.
spec fn marks_kept(before: Seq<Mark>, after: Seq<Mark>) -> bool {
    &&& before.len() == after.len()
    &&& forall|x: int|
        0 <= x < before.len() && before[x] != Mark::Unvisited ==> #[trigger] after[x] == before[x]
}

/// Distinct numbers below `n` are at most `n` many.
proof fn lemma_distinct_bounded(s: Seq<usize>, n: nat)
    requires
        s.no_duplicates(),
        forall|i: int| 0 <= i < s.len() ==> (#[trigger] s[i]) < n,
    ensures
        s.len() <= n,
{
    let t = Seq::new(s.len(), |i: int| s[i] as int);
    assert(t.no_duplicates()) by {
        assert forall|i: int, j: int| 0 <= i < t.len() && 0 <= j < t.len() && i != j implies t[i]
            != t[j] by {
            assert(s[i] != s[j]);
        }
    }
    t.unique_seq_to_set();
    vstd::set_lib::lemma_int_range(0, n as int);
    assert(t.to_set().subset_of(vstd::set_lib::set_int_range(0, n as int))) by {
        assert forall|x: int| t.to_set().contains(x) implies vstd::set_lib::set_int_range(
            0,
            n as int,
        ).contains(x) by {
            let i = choose|i: int| 0 <= i < t.len() && t[i] == x;
            assert(s[i] < n);
        }
    }
    vstd::set_lib::lemma_len_subset(t.to_set(), vstd::set_lib::set_int_range(0, n as int));
}

/// The part of the stack from position `p` on, closed by an edge from its
/// last node back to its first, is a cycle.
proof fn lemma_stack_suffix_cycle(adj: Seq<Vec<usize>>, stack: Seq<usize>, p: int)
    requires
        0 <= p < stack.len(),
        forall|i: int| 0 <= i < stack.len() - 1 ==> has_edge(adj, #[trigger] stack[i], stack[i + 1]),
        has_edge(adj, stack[stack.len() - 1], stack[p]),
    ensures
        is_cycle(adj, stack.subrange(p, stack.len() as int)),
{
    let c = stack.subrange(p, stack.len() as int);
    assert forall|i: int| 0 <= i < c.len() implies has_edge(
        adj,
        #[trigger] c[i],
        c[next_pos(i, c.len() as int)],
    ) by {
        assert(c[i] == stack[p + i]);
        if i + 1 == c.len() {
            assert(c[0] == stack[p]);
        } else {
            assert(c[i + 1] == stack[p + i + 1]);
        }
    }
}

/// Position of `v` on the stack.
fn stack_position(stack: &Vec<usize>, v: usize) -> (p: usize)
    requires
        stack@.contains(v),
    ensures
        p < stack.len(),
        stack[p as int] == v,
{
    let mut p: usize = 0;
    while p < stack.len()
        invariant
            p <= stack.len(),
            stack@.contains(v),
            forall|i: int| 0 <= i < p ==> stack[i] != v,
        decreases stack.len() - p,
    {
        if stack[p] == v {
            return p;
        }
        p += 1;
    }
    proof {
        let i = choose|i: int| 0 <= i < stack@.len() && stack@[i] == v;
        assert(stack[i] != v);
    }
    p
}

/// Copy of the stack from position `p` on.
fn stack_from(stack: &Vec<usize>, p: usize) -> (c: Vec<usize>)
    requires
        p <= stack.len(),
    ensures
        c@ == stack@.subrange(p as int, stack.len() as int),
{
    let mut c: Vec<usize> = Vec::new();
    let mut i: usize = p;
    while i < stack.len()
        invariant
            p <= i <= stack.len(),
            c@ == stack@.subrange(p as int, i as int),
        decreases stack.len() - i,
    {
        c.push(stack[i]);
        assert(c@ == stack@.subrange(p as int, i + 1));
        i += 1;
    }
    c
}

/// Searches from the unvisited node `u`. Returns a cycle as soon as an edge
/// leads back to a node in progress; otherwise marks `u`, and whatever was
/// visited on the way, as done, and leaves the stack as it was.
fn visit(adj: &Vec<Vec<usize>>, u: usize, marks: &mut Vec<Mark>, stack: &mut Vec<usize>) -> (found:
    Option<Vec<usize>>)
    requires
        search_inv(adj@, old(marks)@, old(stack)@),
        u < adj.len(),
        old(marks)[u as int] == Mark::Unvisited,
        old(stack).len() > 0 ==> has_edge(adj@, old(stack)[old(stack).len() - 1], u),
    ensures
        found matches Some(c) ==> is_cycle(adj@, c@),
        found is None ==> {
            &&& search_inv(adj@, final(marks)@, final(stack)@)
            &&& final(stack)@ == old(stack)@
            &&& final(marks)[u as int] == Mark::Done
            &&& marks_kept(old(marks)@, final(marks)@)
        },
    decreases adj.len() - old(stack).len(),
{
    proof {
        lemma_distinct_bounded(stack@.push(u), adj@.len());
    }
    marks.set(u, Mark::InProgress);
    stack.push(u);
    assert(search_inv(adj@, marks@, stack@)) by {
        assert forall|x: usize| x < adj.len() && #[trigger] marks[x as int]
            == Mark::InProgress implies stack@.contains(x) by {
            if x == u {
                assert(stack@[stack@.len() - 1] == u);
            } else {
                assert(old(marks)[x as int] == Mark::InProgress);
                let i = choose|i: int| 0 <= i < old(stack)@.len() && old(stack)@[i] == x;
                assert(stack@[i] == x);
            }
        }
    }
    let succ = &adj[u];
    let mut k: usize = 0;
    while k < succ.len()
        invariant
            k <= succ.len(),
            u < adj.len(),
            *succ == adj[u as int],
            search_inv(adj@, marks@, stack@),
            stack@ == old(stack)@.push(u),
            marks_kept(old(marks)@.update(u as int, Mark::InProgress), marks@),
            forall|j: int|
                0 <= j < k && (#[trigger] succ[j]) < adj.len() ==> marks[succ[j] as int]
                    == Mark::Done,
            stack.len() <= adj.len(),
        decreases succ.len() - k,
    {
        let v = succ[k];
        if v < adj.len() {
            assert(has_edge(adj@, u, v));
            match marks[v] {
                Mark::Unvisited => {
                    let ghost before = marks@;
                    let found = visit(adj, v, marks, stack);
                    if found.is_some() {
                        return found;
                    }
                    assert(forall|j: int|
                        0 <= j < k && (#[trigger] succ[j]) < adj.len() ==> before[succ[j] as int]
                            == Mark::Done);
                },
                Mark::InProgress => {
                    let p = stack_position(stack, v);
                    let c = stack_from(stack, p);
                    proof {
                        lemma_stack_suffix_cycle(adj@, stack@, p as int);
                    }
                    return Some(c);
                },
                Mark::Done => {},
            }
        }
        k += 1;
    }
    let ghost before = marks@;
    marks.set(u, Mark::Done);
    stack.pop();
    assert(stack@ == old(stack)@);
    assert(search_inv(adj@, marks@, stack@)) by {
        assert forall|x: usize| x < adj.len() && #[trigger] marks[x as int]
            == Mark::InProgress implies stack@.contains(x) by {
            assert(before[x as int] == Mark::InProgress);
            let i = choose|i: int|
                0 <= i < old(stack)@.push(u).len() && old(stack)@.push(u)[i] == x;
            assert(old(stack)@[i] == x);
        }
        assert forall|c: Seq<usize>, i: int| is_cycle(adj@, c) && 0 <= i < c.len() implies marks[(
        #[trigger] c[i]) as int] != Mark::Done by {
            if c[i] == u {
                let j = next_pos(i, c.len() as int);
                assert(has_edge(adj@, c[i], c[j]));
                let pos = choose|pos: int| 0 <= pos < succ@.len() && succ@[pos] == c[j];
                assert(before[succ[pos] as int] == Mark::Done);
                assert(before[c[j] as int] != Mark::Done);
            } else {
                assert(before[c[i] as int] != Mark::Done);
            }
        }
        assert forall|i: int| 0 <= i < stack@.len() implies (#[trigger] stack@[i]) < adj.len()
            && marks[stack@[i] as int] == Mark::InProgress by {
            assert(old(stack)@.push(u)[i] == stack@[i]);
        }
        assert forall|i: int| 0 <= i < stack@.len() - 1 implies has_edge(
            adj@,
            #[trigger] stack@[i],
            stack@[i + 1],
        ) by {
            assert(old(stack)@.push(u)[i] == stack@[i]);
            assert(old(stack)@.push(u)[i + 1] == stack@[i + 1]);
        }
    }
    None
}

/// Looks for a cycle in the graph given by adjacency lists. Entries that
/// name no node are ignored.
///
/// Returns a cycle if there is one, as the list of its nodes in walking
/// order, and `None` exactly when the graph has no cycle.
pub fn find_cycle(adj: &Vec<Vec<usize>>) -> (found: Option<Vec<usize>>)
    ensures
        found matches Some(c) ==> is_cycle(adj@, c@),
        found is None <==> !cyclic(adj@),
{
    let n = adj.len();
    let mut marks: Vec<Mark> = Vec::new();
    let mut i: usize = 0;
    while i < n
        invariant
            i <= n,
            marks.len() == i,
            forall|x: int| 0 <= x < i ==> marks[x] == Mark::Unvisited,
        decreases n - i,
    {
        marks.push(Mark::Unvisited);
        i += 1;
    }
    let mut stack: Vec<usize> = Vec::new();
    let mut s: usize = 0;
    while s < n
        invariant
            s <= n,
            n == adj.len(),
            stack@.len() == 0,
            search_inv(adj@, marks@, stack@),
            forall|x: int| 0 <= x < s ==> marks[x] == Mark::Done,
        decreases n - s,
    {
        match marks[s] {
            Mark::Unvisited => {
                let found = visit(adj, s, &mut marks, &mut stack);
                if found.is_some() {
                    return found;
                }
            },
            Mark::InProgress => {
                assert(stack@.contains(s));
                assert(false);
            },
            Mark::Done => {},
        }
        s += 1;
    }
    assert(!cyclic(adj@)) by {
        if cyclic(adj@) {
            let c = choose|c: Seq<usize>| is_cycle(adj@, c);
            assert(has_edge(adj@, c[0], c[next_pos(0, c.len() as int)]));
            assert(marks[c[0] as int] != Mark::Done);
        }
    }
    None
}

} // verus!
