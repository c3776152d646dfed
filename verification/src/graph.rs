//! The render graph: passes with named inputs and outputs, their execution
//! order, resource lifetimes and the aliasing of transient resources.
use vstd::prelude::*;
use vstd::set_lib::set_int_range;
use vstd::set_lib::lemma_int_range;
use vstd::set_lib::lemma_len_subset;

use crate::names::{str_eq, str_contains, has_substring};
use crate::vulkan;

verus! {

/// Kind of GPU resource a render-graph resource stands for.
#[derive(Debug, Clone, Copy, PartialEq, Eq, Structural)]
pub enum ResourceType {
    Image,
    Buffer,
    AccelerationStructure,
}

/// Errors that compiling a render graph can report.
#[derive(Debug, Clone, Copy, PartialEq, Eq, Structural)]
pub enum GraphError {
    /// The pass with this index depends on itself through a chain of
    /// producers and declared dependencies.
    CircularDependency(usize),
}

/// What the graph knows of one pass: its unique name, the resources it reads
/// and writes, and the passes it must run after.
pub struct RenderGraphPassNode {
    pub name: String,
    pub inputs: Vec<String>,
    pub outputs: Vec<String>,
    pub dependencies: Vec<String>,
}

/// The mathematical model of a pass node.
pub struct PassView {
    pub name: Seq<char>,
    pub inputs: Seq<Seq<char>>,
    pub outputs: Seq<Seq<char>>,
    pub dependencies: Seq<Seq<char>>,
}

/// The character sequences of a list of names.
pub open spec fn names_view(v: Seq<String>) -> Seq<Seq<char>> {
    v.map_values(|s: String| s@)
}

impl View for RenderGraphPassNode {
    type V = PassView;

    open spec fn view(&self) -> PassView {
        PassView {
            name: self.name@,
            inputs: names_view(self.inputs@),
            outputs: names_view(self.outputs@),
            dependencies: names_view(self.dependencies@),
        }
    }
}

/// The models of a list of pass nodes.
pub open spec fn passes_view(v: Seq<RenderGraphPassNode>) -> Seq<PassView> {
    v.map_values(|p: RenderGraphPassNode| p@)
}

/// The last pass among the first `k` whose outputs contain `name`.
pub open spec fn producer_before(g: Seq<PassView>, name: Seq<char>, k: nat) -> Option<usize>
    decreases k,
{
    if k == 0 {
        None
    } else if g[k - 1].outputs.contains(name) {
        Some((k - 1) as usize)
    } else {
        producer_before(g, name, (k - 1) as nat)
    }
}

/// The last pass among the first `k` that carries the name `name`.
pub open spec fn named_before(g: Seq<PassView>, name: Seq<char>, k: nat) -> Option<usize>
    decreases k,
{
    if k == 0 {
        None
    } else if g[k - 1].name == name {
        Some((k - 1) as usize)
    } else {
        named_before(g, name, (k - 1) as nat)
    }
}

/// The pass that produces resource `name`: the last one that lists it as an output.
pub open spec fn last_producer(g: Seq<PassView>, name: Seq<char>) -> Option<usize> {
    producer_before(g, name, g.len())
}

/// The pass called `name`: the last one with that name.
pub open spec fn last_named(g: Seq<PassView>, name: Seq<char>) -> Option<usize> {
    named_before(g, name, g.len())
}

/// Resolves each name in turn, keeping the ones that resolve, in order.
/// With `by_output` a name is resolved to its producer, otherwise to the pass
/// of that name.
pub open spec fn resolve_names(g: Seq<PassView>, names: Seq<Seq<char>>, by_output: bool) -> Seq<usize>
    decreases names.len(),
{
    if names.len() == 0 {
        Seq::empty()
    } else {
        let rest = resolve_names(g, names.drop_last(), by_output);
        let r = if by_output {
            last_producer(g, names.last())
        } else {
            last_named(g, names.last())
        };
        match r {
            Some(i) => rest.push(i),
            None => rest,
        }
    }
}

/// The passes that pass `i` must run after: the producers of its inputs,
/// then the passes named by its dependencies.
pub open spec fn pass_deps(g: Seq<PassView>, i: int) -> Seq<usize> {
    resolve_names(g, g[i].inputs, true) + resolve_names(g, g[i].dependencies, false)
}

/// The dependency lists of all passes.
pub open spec fn graph_deps(g: Seq<PassView>) -> Seq<Seq<usize>> {
    Seq::new(g.len(), |i: int| pass_deps(g, i))
}

/// The model of an adjacency table.
pub open spec fn adj_view(adj: Seq<Vec<usize>>) -> Seq<Seq<usize>> {
    adj.map_values(|v: Vec<usize>| v@)
}

/// Every entry of the table names a pass of the table.
pub open spec fn valid_adj(adj: Seq<Seq<usize>>) -> bool {
    forall|i: int, j: int| 0 <= i < adj.len() && 0 <= j < adj[i].len() ==> adj[i][j] < adj.len()
}

/// Pass `a` depends directly on pass `b`.
pub open spec fn has_edge(adj: Seq<Seq<usize>>, a: int, b: int) -> bool {
    &&& 0 <= a < adj.len()
    &&& 0 <= b < adj.len()
    &&& adj[a].contains(b as usize)
}

/// `p` is a closed chain of direct dependencies that starts and ends at the same pass.
pub open spec fn is_cycle(adj: Seq<Seq<usize>>, p: Seq<int>) -> bool {
    &&& p.len() >= 2
    &&& p[0] == p.last()
    &&& forall|k: int| 0 <= k < p.len() - 1 ==> #[trigger] has_edge(adj, p[k], p[k + 1])
}

/// Some pass depends on itself through a chain of dependencies.
pub open spec fn has_cycle(adj: Seq<Seq<usize>>) -> bool {
    exists|p: Seq<int>| #[trigger] is_cycle(adj, p)
}

/// Pass `c` depends on itself through a chain of dependencies.
pub open spec fn on_cycle(adj: Seq<Seq<usize>>, c: int) -> bool {
    exists|p: Seq<int>| #[trigger] is_cycle(adj, p) && p[0] == c
}

/// Every pass of `order` comes after all of its dependencies.
pub open spec fn topo_prefix(adj: Seq<Seq<usize>>, order: Seq<usize>) -> bool {
    forall|p: int, j: int|
        0 <= p < order.len() && 0 <= j < adj[order[p] as int].len() ==> #[trigger] order.take(p).contains(
            adj[order[p] as int][j],
        )
}

/// `order` runs each of the passes `0..adj.len()` exactly once, each after all
/// of its dependencies.
pub open spec fn is_topological_order(adj: Seq<Seq<usize>>, order: Seq<usize>) -> bool {
    &&& order.len() == adj.len()
    &&& order.no_duplicates()
    &&& forall|q: int| 0 <= q < order.len() ==> order[q] < adj.len()
    &&& forall|i: usize| i < adj.len() ==> #[trigger] order.contains(i)
    &&& topo_prefix(adj, order)
}

/// The state of the depth-first search: passes done (`visited`, listed in
/// `order`) and the chain of passes being visited (`path`, marked `on_stack`).
pub open spec fn dfs_inv(
    adj: Seq<Seq<usize>>,
    order: Seq<usize>,
    visited: Seq<bool>,
    on_stack: Seq<bool>,
    path: Seq<int>,
) -> bool {
    let n = adj.len();
    &&& visited.len() == n
    &&& on_stack.len() == n
    &&& path.no_duplicates()
    &&& forall|k: int| 0 <= k < path.len() ==> 0 <= #[trigger] path[k] < n
    &&& forall|i: int| 0 <= i < n ==> (#[trigger] on_stack[i] <==> path.contains(i))
    &&& forall|k: int| 0 <= k < path.len() - 1 ==> #[trigger] has_edge(adj, path[k], path[k + 1])
    &&& forall|i: int| 0 <= i < n && #[trigger] on_stack[i] ==> !visited[i]
    &&& order.no_duplicates()
    &&& forall|q: int| 0 <= q < order.len() ==> #[trigger] order[q] < n
    &&& forall|i: usize| i < n ==> (#[trigger] visited[i as int] <==> order.contains(i))
    &&& topo_prefix(adj, order)
}

/// The depth-first visit of pass `v` with `fuel` levels left, from the
/// finished passes `order`: a finished pass adds nothing; otherwise its
/// dependencies are visited in order, then the pass itself is finished.
pub open spec fn dfs_node(adj: Seq<Seq<usize>>, v: usize, fuel: nat, order: Seq<usize>) -> Seq<usize>
    decreases fuel, 0nat,
{
    if order.contains(v) || fuel == 0 {
        order
    } else {
        dfs_children(adj, v, adj[v as int].len(), (fuel - 1) as nat, order).push(v)
    }
}

/// The depth-first visits of the first `k` dependencies of pass `v`, in
/// order.
pub open spec fn dfs_children(adj: Seq<Seq<usize>>, v: usize, k: nat, fuel: nat, order: Seq<usize>) -> Seq<
    usize,
>
    decreases fuel, k + 1,
{
    if k == 0 {
        order
    } else {
        dfs_node(adj, adj[v as int][k - 1], fuel, dfs_children(adj, v, (k - 1) as nat, fuel, order))
    }
}

/// The order in which the depth-first search finishes the passes, visiting
/// the first `k` passes as roots in the order they were added.
pub open spec fn dfs_roots(adj: Seq<Seq<usize>>, k: nat) -> Seq<usize>
    decreases k,
{
    if k == 0 {
        Seq::empty()
    } else {
        dfs_node(adj, (k - 1) as usize, adj.len(), dfs_roots(adj, (k - 1) as nat))
    }
}

/// `p` is a chain of direct dependencies: each pass of it depends directly on
/// the next one.
pub open spec fn is_chain(adj: Seq<Seq<usize>>, p: Seq<int>) -> bool {
    &&& p.len() >= 1
    &&& forall|k: int| 0 <= k < p.len() - 1 ==> #[trigger] has_edge(adj, p[k], p[k + 1])
}

/// Pass `a` depends on pass `b` through a chain of direct dependencies, or
/// is `b`.
pub open spec fn reaches(adj: Seq<Seq<usize>>, a: int, b: int) -> bool {
    exists|p: Seq<int>| #[trigger] is_chain(adj, p) && p[0] == a && p.last() == b
}

/// A direct dependency followed by a chain is a chain.
proof fn lemma_reaches_step(adj: Seq<Seq<usize>>, a: int, c: int, x: int)
    requires
        has_edge(adj, a, c),
        reaches(adj, c, x),
    ensures
        reaches(adj, a, x),
{
    let p = choose|p: Seq<int>| #[trigger] is_chain(adj, p) && p[0] == c && p.last() == x;
    let p2 = seq![a] + p;
    assert forall|k: int| 0 <= k < p2.len() - 1 implies #[trigger] has_edge(adj, p2[k], p2[k + 1]) by {
        if k > 0 {
            let k1 = k - 1;
            assert(p2[k] == p[k1]);
            assert(p2[k + 1] == p[k1 + 1]);
            assert(has_edge(adj, p[k1], p[k1 + 1]));
        }
    }
    assert(is_chain(adj, p2));
    assert(p2.last() == x);
}

/// An order in which every pass comes after its dependencies holds, with a
/// pass, every pass that it depends on through a chain.
proof fn lemma_chain_closed(adj: Seq<Seq<usize>>, order: Seq<usize>, p: Seq<int>)
    requires
        topo_prefix(adj, order),
        is_chain(adj, p),
        adj.len() <= usize::MAX,
        0 <= p[0] < adj.len(),
        order.contains(p[0] as usize),
    ensures
        order.contains(p.last() as usize),
    decreases p.len(),
{
    if p.len() > 1 {
        let z: int = 0;
        assert(has_edge(adj, p[z], p[z + 1]));
        assert(adj[p[0]].contains(p[1] as usize));
        let pos = choose|pos: int| 0 <= pos < order.len() && order[pos] == p[0] as usize;
        let jj = choose|jj: int| 0 <= jj < adj[p[0]].len() && adj[p[0]][jj] == p[1] as usize;
        assert(order[pos] as int == p[0]);
        assert(0 <= jj < adj[order[pos] as int].len());
        assert(order.take(pos).contains(adj[order[pos] as int][jj]));
        let q = choose|q: int| 0 <= q < order.take(pos).len() && order.take(pos)[q] == adj[order[pos] as int][jj];
        assert(order.take(pos)[q] == order[q]);
        assert(order[q] == p[1] as usize);
        let rest = p.drop_first();
        assert(rest[0] == p[1]);
        assert(rest.last() == p.last());
        assert forall|k: int| 0 <= k < rest.len() - 1 implies #[trigger] has_edge(adj, rest[k], rest[k + 1]) by {
            let k1 = k + 1;
            assert(rest[k] == p[k1]);
            assert(rest[k + 1] == p[k1 + 1]);
            assert(has_edge(adj, p[k1], p[k1 + 1]));
        }
        lemma_chain_closed(adj, order, rest);
    }
}

/// A sequence of distinct integers in `[0, n)` has at most `n` elements.
pub proof fn lemma_distinct_in_range_len(s: Seq<int>, n: int)
    requires
        0 <= n,
        s.no_duplicates(),
        forall|k: int| 0 <= k < s.len() ==> 0 <= #[trigger] s[k] < n,
    ensures
        s.len() <= n,
{
    s.unique_seq_to_set();
    lemma_int_range(0, n);
    assert(s.to_set().subset_of(set_int_range(0, n)));
    lemma_len_subset(s.to_set(), set_int_range(0, n));
}

/// The position of `x` in `order`.
pub open spec fn position_of(order: Seq<usize>, x: usize) -> int {
    choose|q: int| 0 <= q < order.len() && order[q] == x
}

proof fn lemma_position_of(order: Seq<usize>, x: usize)
    requires
        order.contains(x),
        order.no_duplicates(),
    ensures
        0 <= position_of(order, x) < order.len(),
        order[position_of(order, x)] == x,
        forall|q: int| 0 <= q < order.len() && order[q] == x ==> q == position_of(order, x),
{
}

/// Along a chain of dependencies, positions in a topological order strictly decrease.
proof fn lemma_chain_positions(adj: Seq<Seq<usize>>, order: Seq<usize>, p: Seq<int>, k: int)
    requires
        is_topological_order(adj, order),
        valid_adj(adj),
        adj.len() <= usize::MAX,
        p.len() >= 1,
        0 <= p[0] < adj.len(),
        forall|m: int| 0 <= m < p.len() - 1 ==> #[trigger] has_edge(adj, p[m], p[m + 1]),
        0 <= k < p.len(),
    ensures
        0 <= p[k] < adj.len(),
        position_of(order, p[k] as usize) <= position_of(order, p[0] as usize) - k,
    decreases k,
{
    lemma_position_of(order, p[0] as usize);
    if k > 0 {
        lemma_chain_positions(adj, order, p, k - 1);
        let m = k - 1;
        assert(has_edge(adj, p[m], p[m + 1]));
        let ai = p[k - 1];
        let bi = p[k];
        assert(adj[ai].contains(bi as usize));
        let a = ai as usize;
        let b = bi as usize;
        lemma_position_of(order, a);
        let pa = position_of(order, a);
        assert(order[pa] as int == ai);
        let j = choose|j: int| 0 <= j < adj[ai].len() && adj[ai][j] == b;
        assert(adj[ai][j] < adj.len());
        assert(adj[order[pa] as int][j] == b);
        assert(order.take(pa).contains(adj[order[pa] as int][j]));
        let q = choose|q: int| 0 <= q < order.take(pa).len() && order.take(pa)[q] == b;
        assert(order[q] == b);
        lemma_position_of(order, b);
    }
}

/// A graph whose passes have a topological order has no circular dependency.
pub proof fn lemma_topological_order_acyclic(adj: Seq<Seq<usize>>, order: Seq<usize>)
    requires
        is_topological_order(adj, order),
        valid_adj(adj),
        adj.len() <= usize::MAX,
    ensures
        !has_cycle(adj),
{
    if has_cycle(adj) {
        let p = choose|p: Seq<int>| #[trigger] is_cycle(adj, p);
        let m: int = 0;
        assert(has_edge(adj, p[m], p[m + 1]));
        lemma_chain_positions(adj, order, p, p.len() - 1);
    }
}

impl RenderGraph {
    /// Depth-first visit of pass `idx`: visits its dependencies first, then
    /// appends it to `order`. Reports a pass on a cycle when `idx` is already
    /// being visited.
    fn visit_pass(
        idx: usize,
        adj: &Vec<Vec<usize>>,
        order: &mut Vec<usize>,
        visited: &mut Vec<bool>,
        on_stack: &mut Vec<bool>,
        Ghost(path): Ghost<Seq<int>>,
    ) -> (res: Result<(), usize>)
        requires
            valid_adj(adj_view(adj@)),
            dfs_inv(adj_view(adj@), old(order)@, old(visited)@, old(on_stack)@, path),
            idx < adj@.len(),
            path.len() > 0 ==> has_edge(adj_view(adj@), path.last(), idx as int),
        ensures
            match res {
                Ok(()) => {
                    &&& dfs_inv(adj_view(adj@), final(order)@, final(visited)@, final(on_stack)@, path)
                    &&& final(on_stack)@ == old(on_stack)@
                    &&& final(visited)@[idx as int]
                    &&& forall|i: int| 0 <= i < adj@.len() && old(visited)@[i] ==> #[trigger] final(visited)@[i]
                    &&& final(order)@.len() >= old(order)@.len()
                    &&& final(order)@.take(old(order)@.len() as int) == old(order)@
                    &&& final(order)@ == dfs_node(
                        adj_view(adj@),
                        idx,
                        (adj@.len() - path.len()) as nat,
                        old(order)@,
                    )
                    &&& old(visited)@[idx as int] ==> final(order)@ == old(order)@ && final(visited)@ == old(visited)@
                    &&& !old(visited)@[idx as int] ==> final(order)@.len() > old(order)@.len() && final(order)@.last()
                        == idx
                    &&& forall|j: int|
                        0 <= j < adj@[idx as int]@.len() ==> final(order)@.contains(#[trigger] adj@[idx as int]@[j])
                    &&& forall|q: int|
                        old(order)@.len() <= q < final(order)@.len() ==> reaches(
                            adj_view(adj@),
                            idx as int,
                            #[trigger] final(order)@[q] as int,
                        )
                    &&& forall|x: int| #[trigger] reaches(adj_view(adj@), idx as int, x) ==> final(order)@.contains(x as usize)
                },
                Err(c) => c < adj@.len() && on_cycle(adj_view(adj@), c as int),
            },
        decreases adj@.len() - path.len(),
    {
        let ghost g = adj_view(adj@);
        let ghost n = adj@.len() as int;
        if on_stack[idx] {
            proof {
                assert(path.contains(idx as int));
                let k = choose|k: int| 0 <= k < path.len() && path[k] == idx as int;
                let cyc = path.subrange(k, path.len() as int).push(idx as int);
                assert forall|m: int| 0 <= m < cyc.len() - 1 implies #[trigger] has_edge(
                    g,
                    cyc[m],
                    cyc[m + 1],
                ) by {
                    if m < cyc.len() - 2 {
                        assert(cyc[m] == path[k + m]);
                        assert(cyc[m + 1] == path[k + m + 1]);
                        assert(has_edge(g, path[k + m], path[k + m + 1]));
                    } else {
                        assert(cyc[m] == path.last());
                    }
                }
                assert(is_cycle(g, cyc));
            }
            return Err(idx);
        }
        if !visited[idx] {
            let ghost old_order = order@;
            let ghost old_visited = visited@;
            let ghost old_stack = on_stack@;
            on_stack.set(idx, true);
            let ghost path2 = path.push(idx as int);
            proof {
                assert(!path.contains(idx as int));
                assert forall|i: int| 0 <= i < n implies (#[trigger] on_stack@[i] <==> path2.contains(i)) by {
                    if i != idx {
                        if path2.contains(i) {
                            let k = choose|k: int| 0 <= k < path2.len() && path2[k] == i;
                            assert(path[k] == i);
                        }
                        if path.contains(i) {
                            let k = choose|k: int| 0 <= k < path.len() && path[k] == i;
                            assert(path2[k] == i);
                        }
                    } else {
                        assert(path2[path.len() as int] == i);
                    }
                }
                assert forall|k: int| 0 <= k < path2.len() - 1 implies #[trigger] has_edge(
                    g,
                    path2[k],
                    path2[k + 1],
                ) by {
                    if k < path.len() - 1 {
                        assert(has_edge(g, path[k], path[k + 1]));
                    }
                }
                assert(dfs_inv(g, order@, visited@, on_stack@, path2));
                lemma_distinct_in_range_len(path2, n);
            }
            let n_deps = adj[idx].len();
            let mut j: usize = 0;
            while j < n_deps
                invariant
                    valid_adj(g),
                    g == adj_view(adj@),
                    n == adj@.len(),
                    idx < n,
                    n_deps == adj@[idx as int]@.len(),
                    j <= n_deps,
                    path2 == path.push(idx as int),
                    path2.len() <= n,
                    dfs_inv(g, order@, visited@, on_stack@, path2),
                    on_stack@ == old_stack.update(idx as int, true),
                    !visited@[idx as int],
                    forall|i: int| 0 <= i < n && old_visited[i] ==> #[trigger] visited@[i],
                    order@.len() >= old_order.len(),
                    order@.take(old_order.len() as int) == old_order,
                    forall|jj: int| 0 <= jj < j ==> #[trigger] visited@[g[idx as int][jj] as int],
                    order@ == dfs_children(g, idx, j as nat, (n - path2.len()) as nat, old_order),
                    forall|q: int| old_order.len() <= q < order@.len() ==> reaches(g, idx as int, #[trigger] order@[q] as int),
                decreases n_deps - j,
            {
                let d = adj[idx][j];
                proof {
                    assert(g[idx as int][j as int] == d);
                    assert(has_edge(g, path2.last(), d as int));
                }
                let ghost order_before = order@;
                let ghost visited_before = visited@;
                let r = Self::visit_pass(d, adj, order, visited, on_stack, Ghost(path2));
                match r {
                    Err(c) => {
                        return Err(c);
                    },
                    Ok(()) => {},
                }
                proof {
                    assert(order@.take(old_order.len() as int) =~= old_order) by {
                        assert(order@.take(order_before.len() as int) == order_before);
                        assert forall|q: int| 0 <= q < old_order.len() implies order@[q] == old_order[q] by {
                            assert(order@.take(order_before.len() as int)[q] == order_before[q]);
                            assert(order_before.take(old_order.len() as int)[q] == old_order[q]);
                        }
                    }
                    assert(on_stack@[idx as int]);
                    assert(!visited@[idx as int]);
                    assert forall|jj: int| 0 <= jj < j + 1 implies #[trigger] visited@[g[idx as int][jj] as int] by {
                        if jj < j {
                            assert(visited_before[g[idx as int][jj] as int]);
                        }
                    }
                    assert forall|q: int| old_order.len() <= q < order@.len() implies reaches(
                        g,
                        idx as int,
                        #[trigger] order@[q] as int,
                    ) by {
                        if q < order_before.len() {
                            assert(order@.take(order_before.len() as int)[q] == order_before[q]);
                        } else {
                            assert(reaches(g, d as int, order@[q] as int));
                            lemma_reaches_step(g, idx as int, d as int, order@[q] as int);
                        }
                    }
                }
                j += 1;
            }
            let ghost order_mid = order@;
            let ghost visited_mid = visited@;
            on_stack.set(idx, false);
            visited.set(idx, true);
            order.push(idx);
            proof {
                assert(on_stack@ =~= old_stack);
                assert(!order_mid.contains(idx));
                assert(order@ == order_mid.push(idx));
                assert forall|i: usize| i < n implies (#[trigger] visited@[i as int] <==> order@.contains(i)) by {
                    if i != idx {
                        assert(visited@[i as int] == visited_mid[i as int]);
                        if order@.contains(i) {
                            let q = choose|q: int| 0 <= q < order@.len() && order@[q] == i;
                            assert(order@[order_mid.len() as int] == idx);
                            assert(q < order_mid.len());
                            assert(order_mid[q] == i);
                        }
                        if order_mid.contains(i) {
                            let q = choose|q: int| 0 <= q < order_mid.len() && order_mid[q] == i;
                            assert(order@[q] == i);
                        }
                    } else {
                        assert(order@[order_mid.len() as int] == idx);
                    }
                }
                assert forall|p: int, jj: int|
                    0 <= p < order@.len() && 0 <= jj < g[order@[p] as int].len() implies #[trigger] order@.take(
                        p,
                    ).contains(g[order@[p] as int][jj]) by {
                    if p < order_mid.len() {
                        assert(order@.take(p) =~= order_mid.take(p));
                        assert(order_mid.take(p).contains(g[order_mid[p] as int][jj]));
                    } else {
                        assert(order@.take(p) =~= order_mid);
                        let d = g[idx as int][jj];
                        assert(visited_mid[d as int]);
                        assert(d < n);
                        assert(order_mid.contains(d));
                    }
                }
                assert forall|i: int| 0 <= i < n && #[trigger] on_stack@[i] implies !visited@[i] by {
                    assert(i != idx);
                    assert(visited@[i] == visited_mid[i]);
                }
                assert(order@.take(old_order.len() as int) =~= old_order) by {
                    assert forall|q: int| 0 <= q < old_order.len() implies order@[q] == old_order[q] by {
                        assert(order_mid.take(old_order.len() as int)[q] == old_order[q]);
                    }
                }
                assert(dfs_inv(g, order@, visited@, on_stack@, path));
                assert forall|q: int| old_order.len() <= q < order@.len() implies reaches(
                    g,
                    idx as int,
                    #[trigger] order@[q] as int,
                ) by {
                    if q < order_mid.len() {
                        assert(order@[q] == order_mid[q]);
                    } else {
                        let one = seq![idx as int];
                        assert(is_chain(g, one));
                        assert(order@[q] == idx);
                    }
                }
            }
        }
        proof {
            assert(visited@[idx as int]);
            assert(order@.contains(idx));
            let p = choose|p: int| 0 <= p < order@.len() && order@[p] == idx;
            assert forall|j: int| 0 <= j < adj@[idx as int]@.len() implies order@.contains(
                #[trigger] adj@[idx as int]@[j],
            ) by {
                assert(g[idx as int] == adj@[idx as int]@);
                assert(order@.take(p).contains(g[order@[p] as int][j]));
                let q = choose|q: int| 0 <= q < order@.take(p).len() && order@.take(p)[q] == g[idx as int][j];
                assert(order@[q] == adj@[idx as int]@[j]);
            }
            assert forall|x: int| #[trigger] reaches(g, idx as int, x) implies order@.contains(x as usize) by {
                let ch = choose|ch: Seq<int>| #[trigger] is_chain(g, ch) && ch[0] == idx as int && ch.last() == x;
                assert(g.len() == adj.len());
                lemma_chain_closed(g, order@, ch);
            }
        }
        Ok(())
    }
}

} // verus!

verus! {

/// The passes of a frame, the order in which they run and the transient
/// resources that back their attachments.
pub struct RenderGraph {
    pub passes: Vec<RenderGraphPassNode>,
    pub sorted_passes: Vec<usize>,
    /// Attachments that live as long as the renderer (the G-buffer).
    pub physical_attachments: Vec<GraphAttachment>,
    /// Attachments the graph created for resources no physical one backs.
    pub transient_attachments: Vec<GraphAttachment>,
    /// Resources that live in the memory of a transient attachment.
    pub aliased_resources: Vec<ResourceAlias>,
}

/// A named attachment: its format, and its image and view handle for each
/// frame in flight.
pub struct GraphAttachment {
    pub name: String,
    pub format: i32,
    pub images: Vec<u64>,
    pub views: Vec<u64>,
}

/// Resolved names index passes of the graph.
proof fn lemma_resolve_names_in_range(g: Seq<PassView>, names: Seq<Seq<char>>, by_output: bool)
    ensures
        forall|k: int|
            0 <= k < resolve_names(g, names, by_output).len() ==> #[trigger] resolve_names(
                g,
                names,
                by_output,
            )[k] < g.len(),
    decreases names.len(),
{
    if names.len() > 0 {
        lemma_resolve_names_in_range(g, names.drop_last(), by_output);
        lemma_producer_before_range(g, names.last(), g.len());
        lemma_named_before_range(g, names.last(), g.len());
        let rest = resolve_names(g, names.drop_last(), by_output);
        let res = resolve_names(g, names, by_output);
        assert forall|k: int| 0 <= k < res.len() implies #[trigger] res[k] < g.len() by {
            if k < rest.len() {
                assert(res[k] == rest[k]);
            }
        }
    }
}

proof fn lemma_producer_before_range(g: Seq<PassView>, name: Seq<char>, k: nat)
    requires
        k <= g.len(),
    ensures
        producer_before(g, name, k) matches Some(i) ==> i < k,
    decreases k,
{
    if k > 0 {
        lemma_producer_before_range(g, name, (k - 1) as nat);
    }
}

proof fn lemma_named_before_range(g: Seq<PassView>, name: Seq<char>, k: nat)
    requires
        k <= g.len(),
    ensures
        named_before(g, name, k) matches Some(i) ==> i < k,
    decreases k,
{
    if k > 0 {
        lemma_named_before_range(g, name, (k - 1) as nat);
    }
}

/// Every dependency of every pass is a pass of the graph.
pub proof fn lemma_graph_deps_valid(g: Seq<PassView>)
    ensures
        valid_adj(graph_deps(g)),
        graph_deps(g).len() == g.len(),
{
    assert forall|i: int, j: int|
        0 <= i < graph_deps(g).len() && 0 <= j < graph_deps(g)[i].len() implies graph_deps(
        g,
    )[i][j] < graph_deps(g).len() by {
        let a = resolve_names(g, g[i].inputs, true);
        let b = resolve_names(g, g[i].dependencies, false);
        lemma_resolve_names_in_range(g, g[i].inputs, true);
        lemma_resolve_names_in_range(g, g[i].dependencies, false);
        assert(graph_deps(g)[i] == a + b);
        if j < a.len() {
            assert((a + b)[j] == a[j]);
        } else {
            assert((a + b)[j] == b[j - a.len()]);
        }
    }
}

impl RenderGraph {
    /// The models of the passes.
    pub open spec fn pass_views(&self) -> Seq<PassView> {
        passes_view(self.passes@)
    }

    /// The dependency lists of the passes.
    pub open spec fn deps(&self) -> Seq<Seq<usize>> {
        graph_deps(self.pass_views())
    }

    /// An empty graph.
    pub fn new() -> (g: Self)
        ensures
            g.passes@.len() == 0,
            g.sorted_passes@.len() == 0,
            g.physical_attachments@.len() == 0,
            g.transient_attachments@.len() == 0,
            g.aliased_resources@.len() == 0,
    {
        RenderGraph {
            passes: Vec::new(),
            sorted_passes: Vec::new(),
            physical_attachments: Vec::new(),
            transient_attachments: Vec::new(),
            aliased_resources: Vec::new(),
        }
    }

    /// Appends a pass; it runs once the graph is sorted again.
    pub fn add_pass(&mut self, node: RenderGraphPassNode)
        ensures
            final(self).passes@ == old(self).passes@.push(node),
            final(self).sorted_passes@ == old(self).sorted_passes@,
            final(self).physical_attachments == old(self).physical_attachments,
            final(self).transient_attachments == old(self).transient_attachments,
            final(self).aliased_resources == old(self).aliased_resources,
    {
        self.passes.push(node);
    }

    /// Whether `names` holds `name`.
    pub fn contains_name(names: &Vec<String>, name: &String) -> (r: bool)
        ensures
            r == names_view(names@).contains(name@),
    {
        let mut k: usize = 0;
        while k < names.len()
            invariant
                k <= names@.len(),
                forall|q: int| 0 <= q < k ==> names_view(names@)[q] != name@,
            decreases names@.len() - k,
        {
            if str_eq(&names[k], name) {
                assert(names_view(names@)[k as int] == name@);
                return true;
            }
            k += 1;
        }
        false
    }

    /// The pass that produces resource `name`: the last one listing it as an output.
    pub fn find_producer(&self, name: &String) -> (r: Option<usize>)
        ensures
            r == last_producer(self.pass_views(), name@),
    {
        let ghost g = self.pass_views();
        let mut k: usize = self.passes.len();
        while k > 0
            invariant
                k <= self.passes@.len(),
                g == self.pass_views(),
                producer_before(g, name@, g.len()) == producer_before(g, name@, k as nat),
            decreases k,
        {
            if Self::contains_name(&self.passes[k - 1].outputs, name) {
                return Some(k - 1);
            }
            k -= 1;
        }
        None
    }

    /// The pass called `name`: the last one with that name.
    pub fn find_pass_named(&self, name: &String) -> (r: Option<usize>)
        ensures
            r == last_named(self.pass_views(), name@),
    {
        let ghost g = self.pass_views();
        let mut k: usize = self.passes.len();
        while k > 0
            invariant
                k <= self.passes@.len(),
                g == self.pass_views(),
                named_before(g, name@, g.len()) == named_before(g, name@, k as nat),
            decreases k,
        {
            if str_eq(&self.passes[k - 1].name, name) {
                return Some(k - 1);
            }
            k -= 1;
        }
        None
    }

    /// Resolves each of `names` in turn, keeping those that resolve.
    fn resolve_name_list(&self, names: &Vec<String>, by_output: bool) -> (r: Vec<usize>)
        ensures
            r@ == resolve_names(self.pass_views(), names_view(names@), by_output),
    {
        let ghost g = self.pass_views();
        let ghost nv = names_view(names@);
        let mut v: Vec<usize> = Vec::new();
        let mut k: usize = 0;
        while k < names.len()
            invariant
                k <= names@.len(),
                g == self.pass_views(),
                nv == names_view(names@),
                v@ == resolve_names(g, nv.take(k as int), by_output),
            decreases names@.len() - k,
        {
            let found = if by_output {
                self.find_producer(&names[k])
            } else {
                self.find_pass_named(&names[k])
            };
            proof {
                assert(nv.take(k + 1).drop_last() =~= nv.take(k as int));
                assert(nv.take(k + 1).last() == names@[k as int]@);
            }
            match found {
                Some(p) => v.push(p),
                None => {},
            }
            k += 1;
        }
        proof {
            assert(nv.take(names@.len() as int) =~= nv);
        }
        v
    }

    /// For each pass, the passes it must run after: the producers of its
    /// inputs, then the passes named by its dependencies.
    pub fn resolve_pass_dependencies(&self) -> (adj: Vec<Vec<usize>>)
        ensures
            adj_view(adj@) == self.deps(),
    {
        let ghost g = self.pass_views();
        let mut adj: Vec<Vec<usize>> = Vec::new();
        let mut i: usize = 0;
        while i < self.passes.len()
            invariant
                i <= self.passes@.len(),
                g == self.pass_views(),
                adj@.len() == i,
                forall|q: int| 0 <= q < i ==> #[trigger] adj@[q]@ == pass_deps(g, q),
            decreases self.passes@.len() - i,
        {
            let a = self.resolve_name_list(&self.passes[i].inputs, true);
            let b = self.resolve_name_list(&self.passes[i].dependencies, false);
            let mut v = a;
            let mut k: usize = 0;
            while k < b.len()
                invariant
                    k <= b@.len(),
                    v@ == a@ + b@.take(k as int),
                decreases b@.len() - k,
            {
                v.push(b[k]);
                proof {
                    assert(b@.take(k + 1) =~= b@.take(k as int).push(b@[k as int]));
                    assert(a@ + b@.take(k + 1) =~= (a@ + b@.take(k as int)).push(b@[k as int]));
                }
                k += 1;
            }
            proof {
                assert(b@.take(b@.len() as int) =~= b@);
            }
            adj.push(v);
            i += 1;
        }
        proof {
            assert(adj_view(adj@) =~= graph_deps(g));
        }
        adj
    }

    /// The depth-first visit of the passes in the order they were added: the
    /// order in which it finishes them, or the pass at which it meets a pass
    /// it is still visiting.
    fn depth_first_order(&self) -> (res: Result<Vec<usize>, usize>)
        ensures
            res matches Ok(order) ==> {
                &&& is_topological_order(self.deps(), order@)
                &&& order@ == dfs_roots(self.deps(), self.passes@.len() as nat)
            },
            res matches Err(c) ==> c < self.passes@.len() && on_cycle(self.deps(), c as int),
            res is Ok <==> !has_cycle(self.deps()),
    {
        let adj = self.resolve_pass_dependencies();
        let n = self.passes.len();
        let ghost g = adj_view(adj@);
        proof {
            lemma_graph_deps_valid(self.pass_views());
        }
        let mut order: Vec<usize> = Vec::new();
        let mut visited: Vec<bool> = Vec::new();
        let mut on_stack: Vec<bool> = Vec::new();
        let mut k: usize = 0;
        while k < n
            invariant
                k <= n,
                n == adj@.len(),
                visited@.len() == k,
                on_stack@.len() == k,
                forall|q: int| 0 <= q < k ==> !#[trigger] visited@[q],
                forall|q: int| 0 <= q < k ==> !#[trigger] on_stack@[q],
            decreases n - k,
        {
            visited.push(false);
            on_stack.push(false);
            k += 1;
        }
        proof {
            assert(dfs_inv(g, order@, visited@, on_stack@, Seq::empty()));
        }
        let mut i: usize = 0;
        while i < n
            invariant
                i <= n,
                n == adj@.len(),
                g == adj_view(adj@),
                g == self.deps(),
                n == self.passes@.len(),
                valid_adj(g),
                dfs_inv(g, order@, visited@, on_stack@, Seq::empty()),
                forall|q: int| 0 <= q < i ==> #[trigger] visited@[q],
                order@ == dfs_roots(g, i as nat),
            decreases n - i,
        {
            let ghost visited_before = visited@;
            match Self::visit_pass(i, &adj, &mut order, &mut visited, &mut on_stack, Ghost(Seq::empty())) {
                Err(c) => {
                    proof {
                        let p = choose|p: Seq<int>| #[trigger] is_cycle(g, p) && p[0] == c as int;
                        assert(is_cycle(g, p));
                        assert(has_cycle(g));
                    }
                    return Err(c);
                },
                Ok(()) => {},
            }
            proof {
                assert forall|q: int| 0 <= q < i + 1 implies #[trigger] visited@[q] by {
                    if q < i {
                        assert(visited_before[q]);
                    }
                }
            }
            i += 1;
        }
        proof {
            assert forall|q: usize| q < n implies #[trigger] order@.contains(q) by {
                assert(visited@[q as int]);
            }
            assert(order@.len() == n) by {
                let s = order@.map_values(|x: usize| x as int);
                assert forall|a: int, b: int| 0 <= a < s.len() && 0 <= b < s.len() && a != b implies s[a] != s[b] by {
                    assert(order@[a] != order@[b]);
                }
                assert forall|q: int| 0 <= q < s.len() implies 0 <= #[trigger] s[q] < n by {
                    assert(order@[q] < n);
                }
                lemma_distinct_in_range_len(s, n as int);
                lemma_covering_len(order@, n as int);
            }
            assert(is_topological_order(g, order@));
            lemma_topological_order_acyclic(g, order@);
        }
        Ok(order)
    }

    /// Looks for a circular dependency: the pass at which the depth-first
    /// visit of the passes meets a pass it is still visiting, which lies on
    /// a cycle of producers and declared dependencies. There is one exactly
    /// when the dependencies have a cycle; sorting is only possible without.
    pub fn find_circular_dependency(&self) -> (r: Result<(), GraphError>)
        ensures
            r is Ok <==> !has_cycle(self.deps()),
            r matches Err(GraphError::CircularDependency(c)) ==> c < self.passes@.len() && on_cycle(
                self.deps(),
                c as int,
            ),
    {
        match self.depth_first_order() {
            Ok(_) => Ok(()),
            Err(c) => Err(GraphError::CircularDependency(c)),
        }
    }

    /// Orders the passes so that each runs after the producers of its inputs
    /// and after the passes it names as dependencies, by a depth-first visit
    /// of the passes in the order they were added. A graph with a circular
    /// dependency cannot be sorted: check it first with
    /// `find_circular_dependency`.
    pub fn sort_passes(&mut self)
        requires
            !has_cycle(old(self).deps()),
        ensures
            final(self).passes == old(self).passes,
            final(self).physical_attachments == old(self).physical_attachments,
            final(self).transient_attachments == old(self).transient_attachments,
            final(self).aliased_resources == old(self).aliased_resources,
            is_topological_order(old(self).deps(), final(self).sorted_passes@),
            final(self).sorted_passes@ == dfs_roots(old(self).deps(), old(self).passes@.len() as nat),
    {
        match self.depth_first_order() {
            Ok(order) => {
                self.sorted_passes = order;
            },
            Err(_) => {
                assert(false);
            },
        }
    }
}

/// A sequence holding every one of `0..n` has at least `n` elements.
proof fn lemma_covering_len(s: Seq<usize>, n: int)
    requires
        0 <= n <= usize::MAX + 1,
        forall|q: usize| q < n ==> #[trigger] s.contains(q),
    ensures
        s.len() >= n,
{
    let f = |x: usize| x as int;
    let st = s.map_values(f).to_set();
    assert(set_int_range(0, n).subset_of(st)) by {
        assert forall|x: int| set_int_range(0, n).contains(x) implies st.contains(x) by {
            assert(s.contains(x as usize));
            let q = choose|q: int| 0 <= q < s.len() && s[q] == x as usize;
            assert(s.map_values(f)[q] == x);
        }
    }
    lemma_int_range(0, n);
    s.map_values(f).lemma_cardinality_of_set();
    vstd::seq_lib::seq_to_set_is_finite(s.map_values(f));
    lemma_len_subset(set_int_range(0, n), st);
}

} // verus!

verus! {

/// The span of positions in the execution order during which a resource is used.
pub struct ResourceLifetime {
    pub name: String,
    pub first: usize,
    pub last: usize,
}

/// The names a pass uses: its inputs, then its outputs.
pub open spec fn used_names(pv: PassView) -> Seq<Seq<char>> {
    pv.inputs + pv.outputs
}

/// The pass at position `p` of `order` reads or writes resource `name`.
pub open spec fn uses_at(g: Seq<PassView>, order: Seq<usize>, p: int, name: Seq<char>) -> bool {
    used_names(g[order[p] as int]).contains(name)
}

/// `lts` records, for every resource that some pass of `order` uses, the first
/// and the last position at which it is used; each resource once.
pub open spec fn lifetimes_correct(
    g: Seq<PassView>,
    order: Seq<usize>,
    lts: Seq<ResourceLifetime>,
) -> bool {
    &&& forall|k: int|
        0 <= k < lts.len() ==> {
            let lt = #[trigger] lts[k];
            &&& lt.first <= lt.last < order.len()
            &&& uses_at(g, order, lt.first as int, lt.name@)
            &&& uses_at(g, order, lt.last as int, lt.name@)
            &&& forall|q: int| 0 <= q < lt.first ==> !#[trigger] uses_at(g, order, q, lt.name@)
            &&& forall|q: int| lt.last < q < order.len() ==> !#[trigger] uses_at(g, order, q, lt.name@)
        }
    &&& forall|p: int, name: Seq<char>|
        0 <= p < order.len() && #[trigger] uses_at(g, order, p, name) ==> exists|k: int|
            0 <= k < lts.len() && #[trigger] lts[k].name@ == name
    &&& forall|k1: int, k2: int|
        0 <= k1 < lts.len() && 0 <= k2 < lts.len() && k1 != k2 ==> lts[k1].name@ != lts[k2].name@
    &&& forall|k1: int, k2: int| 0 <= k1 < k2 < lts.len() ==> lts[k1].first <= lts[k2].first
}

} // verus!

verus! {

/// The lifetimes recorded after the positions before `p`, and the names `seen`
/// of the pass at position `p`.
pub open spec fn lifetimes_partial(
    g: Seq<PassView>,
    order: Seq<usize>,
    names: Seq<Seq<char>>,
    firsts: Seq<usize>,
    lasts: Seq<usize>,
    p: int,
    seen: Seq<Seq<char>>,
) -> bool {
    &&& names.len() == firsts.len()
    &&& names.len() == lasts.len()
    &&& 0 <= p <= order.len()
    &&& forall|k: int|
        0 <= k < names.len() ==> {
            &&& #[trigger] firsts[k] <= lasts[k] <= p
            &&& firsts[k] < order.len()
            &&& uses_at(g, order, firsts[k] as int, names[k])
            &&& forall|q: int| 0 <= q < firsts[k] ==> !#[trigger] uses_at(g, order, q, names[k])
            &&& forall|q: int| lasts[k] < q < p ==> !#[trigger] uses_at(g, order, q, names[k])
            &&& (lasts[k] < p ==> uses_at(g, order, lasts[k] as int, names[k]) && !seen.contains(
                names[k],
            ))
            &&& (lasts[k] == p ==> seen.contains(names[k]))
        }
    &&& forall|q: int, name: Seq<char>|
        0 <= q < p && #[trigger] uses_at(g, order, q, name) ==> names.contains(name)
    &&& forall|t: int| 0 <= t < seen.len() ==> names.contains(#[trigger] seen[t])
    &&& names.no_duplicates()
    &&& forall|k1: int, k2: int| 0 <= k1 < k2 < names.len() ==> firsts[k1] <= firsts[k2]
}

/// Position of `name` in `names`, if it is there.
pub fn find_name(names: &Vec<String>, name: &String) -> (r: Option<usize>)
    ensures
        match r {
            Some(k) => k < names@.len() && names_view(names@)[k as int] == name@,
            None => !names_view(names@).contains(name@),
        },
{
    let mut k: usize = 0;
    while k < names.len()
        invariant
            k <= names@.len(),
            forall|q: int| 0 <= q < k ==> names_view(names@)[q] != name@,
        decreases names@.len() - k,
    {
        if str_eq(&names[k], name) {
            return Some(k);
        }
        k += 1;
    }
    None
}

/// Records that the pass at position `p` uses resource `name`: the
/// resource's last use moves to `p`, or it is recorded with `p` as its first
/// and last use.
fn note_resource_use(
    names: &mut Vec<String>,
    firsts: &mut Vec<usize>,
    lasts: &mut Vec<usize>,
    name: &String,
    p: usize,
    Ghost(g): Ghost<Seq<PassView>>,
    Ghost(order): Ghost<Seq<usize>>,
    Ghost(seen): Ghost<Seq<Seq<char>>>,
)
    requires
        p < order.len(),
        lifetimes_partial(g, order, names_view(old(names)@), old(firsts)@, old(lasts)@, p as int, seen),
        uses_at(g, order, p as int, name@),
    ensures
        lifetimes_partial(
            g,
            order,
            names_view(final(names)@),
            final(firsts)@,
            final(lasts)@,
            p as int,
            seen.push(name@),
        ),
{
    let ghost nv = names_view(names@);
    let ghost seen2 = seen.push(name@);
    match find_name(names, name) {
        Some(k) => {
            let ghost lasts_before = lasts@;
            lasts.set(k, p);
            proof {
                assert forall|kk: int| 0 <= kk < nv.len() && kk != k implies nv[kk] != name@ by {
                    assert(nv.no_duplicates());
                }
                assert forall|tt: int| 0 <= tt < seen2.len() implies nv.contains(#[trigger] seen2[tt]) by {
                    if tt < seen.len() {
                        assert(seen2[tt] == seen[tt]);
                        assert(nv.contains(seen[tt]));
                    } else {
                        assert(nv[k as int] == seen2[tt]);
                    }
                }
                assert forall|kk: int| 0 <= kk < nv.len() implies {
                    &&& #[trigger] firsts@[kk] <= lasts@[kk] <= p
                    &&& firsts@[kk] < order.len()
                    &&& uses_at(g, order, firsts@[kk] as int, nv[kk])
                    &&& forall|q: int| 0 <= q < firsts@[kk] ==> !#[trigger] uses_at(g, order, q, nv[kk])
                    &&& forall|q: int| lasts@[kk] < q < p ==> !#[trigger] uses_at(g, order, q, nv[kk])
                    &&& (lasts@[kk] < p ==> uses_at(g, order, lasts@[kk] as int, nv[kk]) && !seen2.contains(
                        nv[kk],
                    ))
                    &&& (lasts@[kk] == p ==> seen2.contains(nv[kk]))
                } by {
                    if kk == k {
                        assert(seen2[seen.len() as int] == nv[kk]);
                    } else {
                        assert(lasts@[kk] == lasts_before[kk]);
                        if seen2.contains(nv[kk]) {
                            let tt = choose|tt: int| 0 <= tt < seen2.len() && seen2[tt] == nv[kk];
                            if tt < seen.len() {
                                assert(seen[tt] == nv[kk]);
                            }
                        }
                        if seen.contains(nv[kk]) {
                            let tt = choose|tt: int| 0 <= tt < seen.len() && seen[tt] == nv[kk];
                            assert(seen2[tt] == nv[kk]);
                        }
                    }
                }
            }
        },
        None => {
            let ghost firsts_before = firsts@;
            let ghost lasts_before = lasts@;
            names.push(name.clone());
            firsts.push(p);
            lasts.push(p);
            proof {
                let nv2 = names_view(names@);
                assert(nv2 =~= nv.push(name@));
                assert forall|q: int, nm: Seq<char>|
                    0 <= q < p && #[trigger] uses_at(g, order, q, nm) implies nv2.contains(nm) by {
                    assert(nv.contains(nm));
                    let kk = choose|kk: int| 0 <= kk < nv.len() && nv[kk] == nm;
                    assert(nv2[kk] == nm);
                }
                assert forall|tt: int| 0 <= tt < seen2.len() implies nv2.contains(#[trigger] seen2[tt]) by {
                    if tt < seen.len() {
                        assert(seen2[tt] == seen[tt]);
                        assert(nv.contains(seen[tt]));
                        let kk = choose|kk: int| 0 <= kk < nv.len() && nv[kk] == seen[tt];
                        assert(nv2[kk] == seen[tt]);
                    } else {
                        assert(nv2[nv.len() as int] == seen2[tt]);
                    }
                }
                assert forall|q: int| 0 <= q < p implies !#[trigger] uses_at(g, order, q, name@) by {
                    if uses_at(g, order, q, name@) {
                        assert(nv.contains(name@));
                    }
                }
                assert forall|kk: int| 0 <= kk < nv2.len() implies {
                    &&& #[trigger] firsts@[kk] <= lasts@[kk] <= p
                    &&& firsts@[kk] < order.len()
                    &&& uses_at(g, order, firsts@[kk] as int, nv2[kk])
                    &&& forall|q: int| 0 <= q < firsts@[kk] ==> !#[trigger] uses_at(g, order, q, nv2[kk])
                    &&& forall|q: int| lasts@[kk] < q < p ==> !#[trigger] uses_at(g, order, q, nv2[kk])
                    &&& (lasts@[kk] < p ==> uses_at(g, order, lasts@[kk] as int, nv2[kk]) && !seen2.contains(
                        nv2[kk],
                    ))
                    &&& (lasts@[kk] == p ==> seen2.contains(nv2[kk]))
                } by {
                    if kk == nv.len() {
                        assert(nv2[kk] == name@);
                        assert(seen2[seen.len() as int] == name@);
                    } else {
                        assert(nv2[kk] == nv[kk]);
                        assert(nv[kk] != name@);
                        assert(firsts@[kk] == firsts_before[kk]);
                        assert(lasts@[kk] == lasts_before[kk]);
                        assert(firsts_before[kk] <= lasts_before[kk]);
                        if seen2.contains(nv[kk]) {
                            let tt = choose|tt: int| 0 <= tt < seen2.len() && seen2[tt] == nv[kk];
                            if tt < seen.len() {
                                assert(seen[tt] == nv[kk]);
                            }
                        }
                        if seen.contains(nv[kk]) {
                            let tt = choose|tt: int| 0 <= tt < seen.len() && seen[tt] == nv[kk];
                            assert(seen2[tt] == nv[kk]);
                        }
                    }
                }
                assert forall|k1: int, k2: int| 0 <= k1 < k2 < nv2.len() implies firsts@[k1] <= firsts@[k2] by {
                    assert(firsts@[k1] == firsts_before[k1]);
                    if k2 < nv.len() {
                        assert(firsts@[k2] == firsts_before[k2]);
                    } else {
                        assert(firsts_before[k1] <= lasts@[k1]);
                    }
                }
            }
        },
    }
}

impl RenderGraph {
    /// For every resource that a pass uses, the first and the last position in
    /// the execution order at which a pass reads or writes it.
    pub fn calculate_resource_lifetimes(&self) -> (lts: Vec<ResourceLifetime>)
        requires
            forall|q: int| 0 <= q < self.sorted_passes@.len() ==> #[trigger] self.sorted_passes@[q] < self.passes@.len(),
        ensures
            lifetimes_correct(self.pass_views(), self.sorted_passes@, lts@),
    {
        let ghost g = self.pass_views();
        let ghost order = self.sorted_passes@;
        let mut names: Vec<String> = Vec::new();
        let mut firsts: Vec<usize> = Vec::new();
        let mut lasts: Vec<usize> = Vec::new();
        let mut p: usize = 0;
        while p < self.sorted_passes.len()
            invariant
                g == self.pass_views(),
                order == self.sorted_passes@,
                forall|q: int| 0 <= q < order.len() ==> #[trigger] order[q] < self.passes@.len(),
                lifetimes_partial(g, order, names_view(names@), firsts@, lasts@, p as int, Seq::empty()),
            decreases order.len() - p,
        {
            let pass = &self.passes[self.sorted_passes[p]];
            let ghost pv = g[order[p as int] as int];
            proof {
                assert(pv == pass@);
            }
            let mut t: usize = 0;
            while t < pass.inputs.len()
                invariant
                    p < order.len(),
                    pv == pass@,
                    pv == g[order[p as int] as int],
                    t <= pass.inputs@.len(),
                    lifetimes_partial(g, order, names_view(names@), firsts@, lasts@, p as int, pv.inputs.take(t as int)),
                decreases pass.inputs@.len() - t,
            {
                proof {
                    assert(used_names(pv)[t as int] == pv.inputs[t as int]);
                    assert(uses_at(g, order, p as int, pass.inputs@[t as int]@));
                    assert(pv.inputs.take(t + 1) =~= pv.inputs.take(t as int).push(pass.inputs@[t as int]@));
                }
                note_resource_use(&mut names, &mut firsts, &mut lasts, &pass.inputs[t], p, Ghost(g), Ghost(order), Ghost(pv.inputs.take(t as int)));
                t += 1;
            }
            proof {
                assert(pv.inputs.take(pv.inputs.len() as int) =~= pv.inputs);
                assert(pv.inputs + pv.outputs.take(0) =~= pv.inputs);
            }
            let mut u: usize = 0;
            while u < pass.outputs.len()
                invariant
                    p < order.len(),
                    pv == pass@,
                    pv == g[order[p as int] as int],
                    u <= pass.outputs@.len(),
                    lifetimes_partial(g, order, names_view(names@), firsts@, lasts@, p as int, pv.inputs + pv.outputs.take(u as int)),
                decreases pass.outputs@.len() - u,
            {
                proof {
                    assert(used_names(pv)[pv.inputs.len() + u] == pv.outputs[u as int]);
                    assert(uses_at(g, order, p as int, pass.outputs@[u as int]@));
                    assert(pv.inputs + pv.outputs.take(u + 1) =~= (pv.inputs + pv.outputs.take(u as int)).push(pass.outputs@[u as int]@));
                }
                note_resource_use(&mut names, &mut firsts, &mut lasts, &pass.outputs[u], p, Ghost(g), Ghost(order), Ghost(pv.inputs + pv.outputs.take(u as int)));
                u += 1;
            }
            proof {
                let nv = names_view(names@);
                let c = used_names(pv);
                assert(u == pv.outputs.len());
                assert(pv.inputs + pv.outputs.take(u as int) =~= c);
                assert forall|q: int, nm: Seq<char>|
                    0 <= q < p + 1 && #[trigger] uses_at(g, order, q, nm) implies nv.contains(nm) by {
                    if q == p {
                        let tt = choose|tt: int| 0 <= tt < c.len() && c[tt] == nm;
                        assert(nv.contains(c[tt]));
                    }
                }
                assert forall|kk: int| 0 <= kk < nv.len() implies {
                    &&& #[trigger] firsts@[kk] <= lasts@[kk] <= p + 1
                    &&& firsts@[kk] < order.len()
                    &&& uses_at(g, order, firsts@[kk] as int, nv[kk])
                    &&& forall|q: int| 0 <= q < firsts@[kk] ==> !#[trigger] uses_at(g, order, q, nv[kk])
                    &&& forall|q: int| lasts@[kk] < q < p + 1 ==> !#[trigger] uses_at(g, order, q, nv[kk])
                    &&& (lasts@[kk] < p + 1 ==> uses_at(g, order, lasts@[kk] as int, nv[kk]) && !Seq::<Seq<char>>::empty().contains(nv[kk]))
                    &&& (lasts@[kk] == p + 1 ==> Seq::<Seq<char>>::empty().contains(nv[kk]))
                } by {
                    assert(firsts@[kk] <= lasts@[kk]);
                    if lasts@[kk] == p {
                        assert((pv.inputs + pv.outputs.take(u as int)).contains(nv[kk]));
                        assert(c.contains(nv[kk]));
                    }
                }
            }
            p += 1;
        }
        let mut lts: Vec<ResourceLifetime> = Vec::new();
        let ghost nv = names_view(names@);
        let mut k: usize = 0;
        while k < names.len()
            invariant
                k <= names@.len(),
                nv == names_view(names@),
                lifetimes_partial(g, order, nv, firsts@, lasts@, order.len() as int, Seq::empty()),
                lts@.len() == k,
                forall|kk: int| 0 <= kk < k ==> {
                    &&& (#[trigger] lts@[kk]).name@ == nv[kk]
                    &&& lts@[kk].first == firsts@[kk]
                    &&& lts@[kk].last == lasts@[kk]
                },
            decreases names@.len() - k,
        {
            lts.push(ResourceLifetime { name: names[k].clone(), first: firsts[k], last: lasts[k] });
            k += 1;
        }
        proof {
            assert forall|q: int, nm: Seq<char>|
                0 <= q < order.len() && #[trigger] uses_at(g, order, q, nm) implies exists|kk: int|
                    0 <= kk < lts@.len() && #[trigger] lts@[kk].name@ == nm by {
                let kk = choose|kk: int| 0 <= kk < nv.len() && nv[kk] == nm;
                assert(lts@[kk].name@ == nm);
            }
            assert forall|k1: int, k2: int|
                0 <= k1 < lts@.len() && 0 <= k2 < lts@.len() && k1 != k2 implies lts@[k1].name@ != lts@[k2].name@ by {
                assert(nv[k1] != nv[k2]);
            }
        }
        lts
    }
}

} // verus!

verus! {

/// What an image attachment is made of: format, usage and size.
#[derive(Debug, Clone, Copy, PartialEq, Eq, Structural)]
pub struct ImageSpec {
    pub format: i32,
    pub usage: u32,
    pub width: u32,
    pub height: u32,
}

/// The image spec of a resource that no pass declares: depth resources take
/// the device's depth format, normal, HDR and ray-tracing outputs a 16-bit
/// float format, the others 8-bit color; all have the size of the frame.
pub open spec fn default_image_spec(
    name: Seq<char>,
    width: u32,
    height: u32,
    depth_format: i32,
) -> ImageSpec {
    let depth = has_substring(name, "Depth"@);
    ImageSpec {
        format: if depth {
            depth_format
        } else if has_substring(name, "Normal"@) || has_substring(name, "HDR"@) || has_substring(
            name,
            "RTOutput"@,
        ) {
            vulkan::FORMAT_R16G16B16A16_SFLOAT
        } else {
            vulkan::FORMAT_R8G8B8A8_UNORM
        },
        usage: if depth {
            vulkan::IMAGE_USAGE_DEPTH_STENCIL_ATTACHMENT | vulkan::IMAGE_USAGE_SAMPLED
        } else {
            vulkan::IMAGE_USAGE_COLOR_ATTACHMENT | vulkan::IMAGE_USAGE_SAMPLED | vulkan::IMAGE_USAGE_STORAGE
        },
        width,
        height,
    }
}

/// The spec of the image behind resource `name`: the one a pass declares,
/// with its size already resolved against the frame, or else the default
/// spec for that name.
pub fn resolve_resource_specs(
    name: &str,
    declared: Option<ImageSpec>,
    width: u32,
    height: u32,
    depth_format: i32,
) -> (r: ImageSpec)
    ensures
        r == match declared {
            Some(d) => d,
            None => default_image_spec(name@, width, height, depth_format),
        },
        declared is None ==> r.width == width && r.height == height,
        declared is None && has_substring(name@, "Depth"@) ==> r.format == depth_format && r.usage
            == vulkan::IMAGE_USAGE_DEPTH_STENCIL_ATTACHMENT | vulkan::IMAGE_USAGE_SAMPLED,
        declared is None && !has_substring(name@, "Depth"@) && (has_substring(name@, "Normal"@) || has_substring(
            name@,
            "HDR"@,
        ) || has_substring(name@, "RTOutput"@)) ==> r.format == vulkan::FORMAT_R16G16B16A16_SFLOAT,
        declared is None && !has_substring(name@, "Depth"@) && !has_substring(name@, "Normal"@) && !has_substring(
            name@,
            "HDR"@,
        ) && !has_substring(name@, "RTOutput"@) ==> r.format == vulkan::FORMAT_R8G8B8A8_UNORM,
        declared is None && !has_substring(name@, "Depth"@) ==> r.usage == vulkan::IMAGE_USAGE_COLOR_ATTACHMENT
            | vulkan::IMAGE_USAGE_SAMPLED | vulkan::IMAGE_USAGE_STORAGE,
{
    if let Some(d) = declared {
        return d;
    }
    let depth = str_contains(name, "Depth");
    let format = if depth {
        depth_format
    } else if str_contains(name, "Normal") || str_contains(name, "HDR") || str_contains(
        name,
        "RTOutput",
    ) {
        vulkan::FORMAT_R16G16B16A16_SFLOAT
    } else {
        vulkan::FORMAT_R8G8B8A8_UNORM
    };
    let usage = if depth {
        vulkan::IMAGE_USAGE_DEPTH_STENCIL_ATTACHMENT | vulkan::IMAGE_USAGE_SAMPLED
    } else {
        vulkan::IMAGE_USAGE_COLOR_ATTACHMENT | vulkan::IMAGE_USAGE_SAMPLED | vulkan::IMAGE_USAGE_STORAGE
    };
    ImageSpec { format, usage, width, height }
}

/// What an undeclared resource gets from its name: a name with "Depth" in
/// it is a depth target in the device's depth format; otherwise a name with
/// "Normal", "HDR" or "RTOutput" in it is a 16-bit float RGBA color target;
/// any other is an 8-bit RGBA color target. Every one is as large as the
/// frame.
pub proof fn lemma_default_spec_by_name(name: Seq<char>, width: u32, height: u32, depth_format: i32)
    ensures
        ({
            let s = default_image_spec(name, width, height, depth_format);
            &&& s.width == width && s.height == height
            &&& has_substring(name, "Depth"@) ==> s.format == depth_format
            &&& !has_substring(name, "Depth"@) && has_substring(name, "Normal"@) ==> s.format
                == vulkan::FORMAT_R16G16B16A16_SFLOAT
            &&& !has_substring(name, "Depth"@) && has_substring(name, "HDR"@) ==> s.format
                == vulkan::FORMAT_R16G16B16A16_SFLOAT
            &&& !has_substring(name, "Depth"@) && has_substring(name, "RTOutput"@) ==> s.format
                == vulkan::FORMAT_R16G16B16A16_SFLOAT
            &&& !has_substring(name, "Depth"@) && !has_substring(name, "Normal"@) && !has_substring(name, "HDR"@)
                && !has_substring(name, "RTOutput"@) ==> s.format == vulkan::FORMAT_R8G8B8A8_UNORM
        }),
{
}

/// The layout an image must be in for a pass that accesses it so.
pub open spec fn layout_for_access(access: u32, stage: u32) -> i32 {
    if vulkan::has_flags(access, vulkan::ACCESS_COLOR_ATTACHMENT_WRITE) {
        vulkan::LAYOUT_COLOR_ATTACHMENT_OPTIMAL
    } else if vulkan::has_flags(access, vulkan::ACCESS_DEPTH_STENCIL_ATTACHMENT_WRITE) {
        vulkan::LAYOUT_DEPTH_ATTACHMENT_OPTIMAL
    } else if vulkan::has_flags(access, vulkan::ACCESS_SHADER_READ) && !vulkan::has_flags(stage, vulkan::STAGE_RAY_TRACING_SHADER) {
        vulkan::LAYOUT_SHADER_READ_ONLY_OPTIMAL
    } else if vulkan::has_flags(access, vulkan::ACCESS_TRANSFER_READ) {
        vulkan::LAYOUT_TRANSFER_SRC_OPTIMAL
    } else if vulkan::has_flags(access, vulkan::ACCESS_TRANSFER_WRITE) {
        vulkan::LAYOUT_TRANSFER_DST_OPTIMAL
    } else {
        vulkan::LAYOUT_GENERAL
    }
}

/// The layout an image must be in for a pass that accesses it with `access`
/// in pipeline stages `stage`: attachment writes take attachment layouts,
/// shader reads outside ray tracing the read-only layout, transfers the
/// transfer layouts, anything else the general layout.
pub fn determine_layout(access: u32, stage: u32) -> (r: i32)
    ensures
        r == layout_for_access(access, stage),
{
    if vulkan::contains_flags(access, vulkan::ACCESS_COLOR_ATTACHMENT_WRITE) {
        vulkan::LAYOUT_COLOR_ATTACHMENT_OPTIMAL
    } else if vulkan::contains_flags(access, vulkan::ACCESS_DEPTH_STENCIL_ATTACHMENT_WRITE) {
        vulkan::LAYOUT_DEPTH_ATTACHMENT_OPTIMAL
    } else if vulkan::contains_flags(access, vulkan::ACCESS_SHADER_READ) && !vulkan::contains_flags(
        stage,
        vulkan::STAGE_RAY_TRACING_SHADER,
    ) {
        vulkan::LAYOUT_SHADER_READ_ONLY_OPTIMAL
    } else if vulkan::contains_flags(access, vulkan::ACCESS_TRANSFER_READ) {
        vulkan::LAYOUT_TRANSFER_SRC_OPTIMAL
    } else if vulkan::contains_flags(access, vulkan::ACCESS_TRANSFER_WRITE) {
        vulkan::LAYOUT_TRANSFER_DST_OPTIMAL
    } else {
        vulkan::LAYOUT_GENERAL
    }
}

/// A transient image the graph creates, with the end of the lifetime of the
/// last resource it backs so far.
pub struct TransientResource {
    pub name: String,
    pub spec: ImageSpec,
    pub end: usize,
}

/// Resource `name` lives in the memory of transient resource `backing`.
pub struct ResourceAlias {
    pub name: String,
    pub backing: String,
}

/// The model of a transient resource.
pub struct PoolEntry {
    pub name: Seq<char>,
    pub spec: ImageSpec,
    pub end: int,
}

pub open spec fn pool_view(pool: Seq<TransientResource>) -> Seq<PoolEntry> {
    pool.map_values(|t: TransientResource| PoolEntry { name: t.name@, spec: t.spec, end: t.end as int })
}

pub open spec fn aliases_view(aliases: Seq<ResourceAlias>) -> Seq<(Seq<char>, Seq<char>)> {
    aliases.map_values(|a: ResourceAlias| (a.name@, a.backing@))
}

/// The first transient resource, from index `j` on, that has the spec `spec`
/// and whose last use ends before `start`.
pub open spec fn compatible_from(pool: Seq<PoolEntry>, spec: ImageSpec, start: int, j: int) -> Option<int>
    decreases pool.len() - j,
{
    if j < 0 || j >= pool.len() {
        None
    } else if pool[j].spec == spec && pool[j].end < start {
        Some(j)
    } else {
        compatible_from(pool, spec, start, j + 1)
    }
}

/// The first transient resource that a resource with spec `spec` starting
/// at `start` can share.
pub open spec fn first_compatible(pool: Seq<PoolEntry>, spec: ImageSpec, start: int) -> Option<int> {
    compatible_from(pool, spec, start, 0)
}

/// The first transient resource that a resource with spec `spec` whose
/// lifetime starts at `start` can share.
pub fn find_compatible_alias(pool: &Vec<TransientResource>, spec: ImageSpec, start: usize) -> (r: Option<usize>)
    ensures
        r matches Some(j) ==> j < pool@.len(),
        match r {
            Some(j) => first_compatible(pool_view(pool@), spec, start as int) == Some(j as int),
            None => first_compatible(pool_view(pool@), spec, start as int) is None,
        },
{
    let ghost pv = pool_view(pool@);
    let mut j: usize = 0;
    while j < pool.len()
        invariant
            j <= pool@.len(),
            pv == pool_view(pool@),
            first_compatible(pv, spec, start as int) == compatible_from(pv, spec, start as int, j as int),
        decreases pool@.len() - j,
    {
        if pool[j].spec == spec && pool[j].end < start {
            return Some(j);
        }
        j += 1;
    }
    None
}

/// The plan after the first resources: aliases so far, the transient
/// resources with their current ends, for each resource the transient
/// resource that holds it (-1 for the graph's physical attachments), for each
/// transient resource the resource it was made for, and for each alias the
/// resource it renames.
pub struct PlanView {
    pub aliases: Seq<(Seq<char>, Seq<char>)>,
    pub pool: Seq<PoolEntry>,
    pub assign: Seq<int>,
    pub creator: Seq<int>,
    pub aliased: Seq<int>,
}

/// Aliasing of the first `k` resources, taken in order: a physical resource
/// is left alone; another shares the first compatible transient resource,
/// whose end moves to its last use, or becomes a new transient resource.
pub open spec fn plan_upto(
    lts: Seq<ResourceLifetime>,
    specs: Seq<ImageSpec>,
    physical: Seq<bool>,
    k: nat,
) -> PlanView
    decreases k,
{
    if k == 0 {
        PlanView {
            aliases: Seq::empty(),
            pool: Seq::empty(),
            assign: Seq::empty(),
            creator: Seq::empty(),
            aliased: Seq::empty(),
        }
    } else {
        let prev = plan_upto(lts, specs, physical, (k - 1) as nat);
        let i = k - 1;
        if physical[i] {
            PlanView { assign: prev.assign.push(-1), ..prev }
        } else {
            match first_compatible(prev.pool, specs[i], lts[i].first as int) {
                Some(j) => PlanView {
                    aliases: prev.aliases.push((lts[i].name@, prev.pool[j].name)),
                    pool: prev.pool.update(j, PoolEntry { end: lts[i].last as int, ..prev.pool[j] }),
                    assign: prev.assign.push(j),
                    aliased: prev.aliased.push(i),
                    ..prev
                },
                None => PlanView {
                    aliases: prev.aliases,
                    pool: prev.pool.push(
                        PoolEntry { name: lts[i].name@, spec: specs[i], end: lts[i].last as int },
                    ),
                    assign: prev.assign.push(prev.pool.len() as int),
                    creator: prev.creator.push(i),
                    ..prev
                },
            }
        }
    }
}

proof fn lemma_compatible_from(pool: Seq<PoolEntry>, spec: ImageSpec, start: int, j: int)
    requires
        0 <= j,
    ensures
        compatible_from(pool, spec, start, j) matches Some(q) ==> j <= q < pool.len() && pool[q].spec
            == spec && pool[q].end < start,
    decreases pool.len() - j,
{
    if j < pool.len() {
        lemma_compatible_from(pool, spec, start, j + 1);
    }
}

/// Aliasing keeps apart what must stay apart: each graph-managed resource
/// gets a transient image of its own spec, physical attachments get none,
/// and resources that share a transient image have lifetimes that do not
/// overlap, each ending before the next one starts.
pub proof fn lemma_plan_sound(
    lts: Seq<ResourceLifetime>,
    specs: Seq<ImageSpec>,
    physical: Seq<bool>,
    k: nat,
)
    requires
        k <= lts.len(),
        specs.len() == lts.len(),
        physical.len() == lts.len(),
        forall|i: int| 0 <= i < lts.len() ==> (#[trigger] lts[i]).first <= lts[i].last,
    ensures
        ({
            let pl = plan_upto(lts, specs, physical, k);
            &&& pl.assign.len() == k
            &&& forall|i: int|
                0 <= i < k ==> {
                    &&& (physical[i] <==> #[trigger] pl.assign[i] == -1)
                    &&& !physical[i] ==> 0 <= pl.assign[i] < pl.pool.len() && pl.pool[pl.assign[i]].spec
                        == specs[i] && lts[i].last <= pl.pool[pl.assign[i]].end
                }
            &&& forall|i1: int, i2: int|
                0 <= i1 < i2 < k && #[trigger] pl.assign[i1] == #[trigger] pl.assign[i2] && pl.assign[i1]
                    >= 0 ==> lts[i1].last < lts[i2].first
        }),
    decreases k,
{
    if k > 0 {
        lemma_plan_sound(lts, specs, physical, (k - 1) as nat);
        let prev = plan_upto(lts, specs, physical, (k - 1) as nat);
        let pl = plan_upto(lts, specs, physical, k);
        let i = k - 1;
        assert(lts[i as int].first <= lts[i as int].last);
        if !physical[i as int] {
            lemma_compatible_from(prev.pool, specs[i as int], lts[i as int].first as int, 0);
            match first_compatible(prev.pool, specs[i as int], lts[i as int].first as int) {
                Some(j) => {
                    assert forall|i1: int| 0 <= i1 < k implies {
                        &&& (physical[i1] <==> #[trigger] pl.assign[i1] == -1)
                        &&& !physical[i1] ==> 0 <= pl.assign[i1] < pl.pool.len() && pl.pool[pl.assign[i1]].spec
                            == specs[i1] && lts[i1].last <= pl.pool[pl.assign[i1]].end
                    } by {
                        if i1 < i {
                            assert(pl.assign[i1] == prev.assign[i1]);
                            assert(prev.assign[i1] == -1 <==> physical[i1]);
                        }
                    }
                    assert forall|i1: int, i2: int|
                        0 <= i1 < i2 < k && #[trigger] pl.assign[i1] == #[trigger] pl.assign[i2] && pl.assign[i1]
                            >= 0 implies lts[i1].last < lts[i2].first by {
                        assert(pl.assign[i1] == prev.assign[i1]);
                        if i2 < i {
                            assert(pl.assign[i2] == prev.assign[i2]);
                        } else {
                            assert(prev.assign[i1] == -1 <==> physical[i1]);
                        }
                    }
                },
                None => {
                    assert forall|i1: int| 0 <= i1 < k implies {
                        &&& (physical[i1] <==> #[trigger] pl.assign[i1] == -1)
                        &&& !physical[i1] ==> 0 <= pl.assign[i1] < pl.pool.len() && pl.pool[pl.assign[i1]].spec
                            == specs[i1] && lts[i1].last <= pl.pool[pl.assign[i1]].end
                    } by {
                        if i1 < i {
                            assert(pl.assign[i1] == prev.assign[i1]);
                            assert(prev.assign[i1] == -1 <==> physical[i1]);
                        }
                    }
                    assert forall|i1: int, i2: int|
                        0 <= i1 < i2 < k && #[trigger] pl.assign[i1] == #[trigger] pl.assign[i2] && pl.assign[i1]
                            >= 0 implies lts[i1].last < lts[i2].first by {
                        assert(pl.assign[i1] == prev.assign[i1]);
                        if i2 < i {
                            assert(pl.assign[i2] == prev.assign[i2]);
                        } else {
                            assert(prev.assign[i1] == -1 <==> physical[i1]);
                        }
                    }
                },
            }
        } else {
            assert forall|i1: int, i2: int|
                0 <= i1 < i2 < k && #[trigger] pl.assign[i1] == #[trigger] pl.assign[i2] && pl.assign[i1]
                    >= 0 implies lts[i1].last < lts[i2].first by {
                assert(pl.assign[i1] == prev.assign[i1]);
                if i2 < i {
                    assert(pl.assign[i2] == prev.assign[i2]);
                }
            }
            assert forall|i1: int| 0 <= i1 < k implies {
                &&& (physical[i1] <==> #[trigger] pl.assign[i1] == -1)
                &&& !physical[i1] ==> 0 <= pl.assign[i1] < pl.pool.len() && pl.pool[pl.assign[i1]].spec
                    == specs[i1] && lts[i1].last <= pl.pool[pl.assign[i1]].end
            } by {
                if i1 < i {
                    assert(pl.assign[i1] == prev.assign[i1]);
                }
            }
        }
    }
}

/// What the plan records of where each name went: every transient resource
/// is named after the resource it was made for, every alias renames a
/// resource that shares a transient resource made for another, and every
/// resource that no physical attachment backs either made its transient
/// resource or is renamed by an alias.
pub open spec fn plan_records(lts: Seq<ResourceLifetime>, physical: Seq<bool>, pl: PlanView, k: int) -> bool {
    &&& pl.assign.len() == k
    &&& pl.creator.len() == pl.pool.len()
    &&& pl.aliased.len() == pl.aliases.len()
    &&& forall|j: int|
        0 <= j < pl.pool.len() ==> {
            let c = #[trigger] pl.creator[j];
            &&& 0 <= c < k
            &&& !physical[c]
            &&& pl.assign[c] == j
            &&& pl.pool[j].name == lts[c].name@
        }
    &&& forall|a: int|
        0 <= a < pl.aliases.len() ==> {
            let i = #[trigger] pl.aliased[a];
            &&& 0 <= i < k
            &&& !physical[i]
            &&& 0 <= pl.assign[i] < pl.pool.len()
            &&& pl.aliases[a].0 == lts[i].name@
            &&& pl.aliases[a].1 == pl.pool[pl.assign[i]].name
            &&& pl.creator[pl.assign[i]] != i
        }
    &&& forall|i: int|
        0 <= i < k && !physical[i] ==> 0 <= #[trigger] pl.assign[i] < pl.pool.len() && (pl.creator[pl.assign[i]]
            == i || exists|a: int| 0 <= a < pl.aliased.len() && #[trigger] pl.aliased[a] == i)
}

proof fn lemma_plan_records(lts: Seq<ResourceLifetime>, specs: Seq<ImageSpec>, physical: Seq<bool>, k: nat)
    requires
        k <= lts.len(),
        specs.len() == lts.len(),
        physical.len() == lts.len(),
    ensures
        plan_records(lts, physical, plan_upto(lts, specs, physical, k), k as int),
    decreases k,
{
    if k > 0 {
        lemma_plan_records(lts, specs, physical, (k - 1) as nat);
        let prev = plan_upto(lts, specs, physical, (k - 1) as nat);
        let pl = plan_upto(lts, specs, physical, k);
        let i = k - 1;
        if physical[i as int] {
            assert forall|j: int| 0 <= j < pl.pool.len() implies {
                let c = #[trigger] pl.creator[j];
                &&& 0 <= c < k
                &&& !physical[c]
                &&& pl.assign[c] == j
                &&& pl.pool[j].name == lts[c].name@
            } by {
                assert(pl.assign[prev.creator[j]] == prev.assign[prev.creator[j]]);
            }
            assert forall|a: int| 0 <= a < pl.aliases.len() implies {
                let i = #[trigger] pl.aliased[a];
                &&& 0 <= i < k
                &&& !physical[i]
                &&& 0 <= pl.assign[i] < pl.pool.len()
                &&& pl.aliases[a].0 == lts[i].name@
                &&& pl.aliases[a].1 == pl.pool[pl.assign[i]].name
                &&& pl.creator[pl.assign[i]] != i
            } by {
                assert(pl.assign[prev.aliased[a]] == prev.assign[prev.aliased[a]]);
            }
            assert forall|i1: int| 0 <= i1 < k && !physical[i1] implies 0 <= #[trigger] pl.assign[i1]
                < pl.pool.len() && (pl.creator[pl.assign[i1]] == i1 || exists|a: int|
                0 <= a < pl.aliased.len() && #[trigger] pl.aliased[a] == i1) by {
                assert(pl.assign[i1] == prev.assign[i1]);
                if pl.creator[pl.assign[i1]] != i1 {
                    let a = choose|a: int| 0 <= a < prev.aliased.len() && #[trigger] prev.aliased[a] == i1;
                    assert(pl.aliased[a] == i1);
                }
            }
        } else {
            match first_compatible(prev.pool, specs[i as int], lts[i as int].first as int) {
                Some(j0) => {
                    lemma_compatible_from(prev.pool, specs[i as int], lts[i as int].first as int, 0);
                    assert forall|j: int| 0 <= j < pl.pool.len() implies {
                        let c = #[trigger] pl.creator[j];
                        &&& 0 <= c < k
                        &&& !physical[c]
                        &&& pl.assign[c] == j
                        &&& pl.pool[j].name == lts[c].name@
                    } by {
                        assert(pl.assign[prev.creator[j]] == prev.assign[prev.creator[j]]);
                    }
                    assert forall|a: int| 0 <= a < pl.aliases.len() implies {
                        let i = #[trigger] pl.aliased[a];
                        &&& 0 <= i < k
                        &&& !physical[i]
                        &&& 0 <= pl.assign[i] < pl.pool.len()
                        &&& pl.aliases[a].0 == lts[i].name@
                        &&& pl.aliases[a].1 == pl.pool[pl.assign[i]].name
                        &&& pl.creator[pl.assign[i]] != i
                    } by {
                        if a < prev.aliases.len() {
                            assert(pl.aliased[a] == prev.aliased[a]);
                            assert(pl.assign[prev.aliased[a]] == prev.assign[prev.aliased[a]]);
                        } else {
                            assert(pl.aliased[a] == i);
                            assert(prev.creator[j0] < i);
                        }
                    }
                    assert forall|i1: int| 0 <= i1 < k && !physical[i1] implies 0 <= #[trigger] pl.assign[i1]
                        < pl.pool.len() && (pl.creator[pl.assign[i1]] == i1 || exists|a: int|
                        0 <= a < pl.aliased.len() && #[trigger] pl.aliased[a] == i1) by {
                        if i1 < i {
                            assert(pl.assign[i1] == prev.assign[i1]);
                            if pl.creator[pl.assign[i1]] != i1 {
                                let a = choose|a: int| 0 <= a < prev.aliased.len() && #[trigger] prev.aliased[a] == i1;
                                assert(pl.aliased[a] == i1);
                            }
                        } else {
                            assert(pl.aliased[prev.aliased.len() as int] == i1);
                        }
                    }
                },
                None => {
                    assert forall|j: int| 0 <= j < pl.pool.len() implies {
                        let c = #[trigger] pl.creator[j];
                        &&& 0 <= c < k
                        &&& !physical[c]
                        &&& pl.assign[c] == j
                        &&& pl.pool[j].name == lts[c].name@
                    } by {
                        if j < prev.pool.len() {
                            assert(pl.creator[j] == prev.creator[j]);
                            assert(pl.assign[prev.creator[j]] == prev.assign[prev.creator[j]]);
                        }
                    }
                    assert forall|a: int| 0 <= a < pl.aliases.len() implies {
                        let i = #[trigger] pl.aliased[a];
                        &&& 0 <= i < k
                        &&& !physical[i]
                        &&& 0 <= pl.assign[i] < pl.pool.len()
                        &&& pl.aliases[a].0 == lts[i].name@
                        &&& pl.aliases[a].1 == pl.pool[pl.assign[i]].name
                        &&& pl.creator[pl.assign[i]] != i
                    } by {
                        assert(pl.assign[prev.aliased[a]] == prev.assign[prev.aliased[a]]);
                        assert(pl.creator[prev.assign[prev.aliased[a]]] == prev.creator[prev.assign[prev.aliased[a]]]);
                    }
                    assert forall|i1: int| 0 <= i1 < k && !physical[i1] implies 0 <= #[trigger] pl.assign[i1]
                        < pl.pool.len() && (pl.creator[pl.assign[i1]] == i1 || exists|a: int|
                        0 <= a < pl.aliased.len() && #[trigger] pl.aliased[a] == i1) by {
                        if i1 < i {
                            assert(pl.assign[i1] == prev.assign[i1]);
                            assert(pl.creator[prev.assign[i1]] == prev.creator[prev.assign[i1]]);
                            if pl.creator[pl.assign[i1]] != i1 {
                                let a = choose|a: int| 0 <= a < prev.aliased.len() && #[trigger] prev.aliased[a] == i1;
                                assert(pl.aliased[a] == i1);
                            }
                        } else {
                            assert(pl.creator[prev.pool.len() as int] == i1);
                        }
                    }
                },
            }
        }
    }
}

/// Some transient resource in `pool` is called `name`.
pub open spec fn has_transient(pool: Seq<TransientResource>, name: Seq<char>) -> bool {
    exists|j: int| 0 <= j < pool.len() && (#[trigger] pool[j]).name@ == name
}

/// Some alias renames `name`.
pub open spec fn is_aliased(aliases: Seq<ResourceAlias>, name: Seq<char>) -> bool {
    alias_from(aliases, name, 0) is Some
}

/// What aliasing promises of resources `lts` with image specs `specs`, of
/// which those marked in `physical` have a physical attachment: two distinct
/// resources that live in the same memory are never live together and have
/// the same spec; a physical resource is neither aliased nor a transient
/// resource; every other resource either is a transient resource or is
/// aliased, never both, and lives in a transient resource; every alias
/// points at a transient resource that is not aliased itself.
pub open spec fn aliasing_sound(
    lts: Seq<ResourceLifetime>,
    specs: Seq<ImageSpec>,
    physical: Seq<bool>,
    aliases: Seq<ResourceAlias>,
    pool: Seq<TransientResource>,
) -> bool {
    &&& forall|i1: int, i2: int|
        0 <= i1 < i2 < lts.len() && !physical[i1] && !physical[i2] && #[trigger] resolve_alias_spec(
            aliases,
            lts[i1].name@,
        ) == #[trigger] resolve_alias_spec(aliases, lts[i2].name@) ==> lts[i1].last < lts[i2].first
            && specs[i1] == specs[i2]
    &&& forall|i: int|
        0 <= i < lts.len() && physical[i] ==> !is_aliased(aliases, (#[trigger] lts[i]).name@) && !has_transient(
            pool,
            lts[i].name@,
        )
    &&& forall|i: int|
        0 <= i < lts.len() && !physical[i] ==> is_aliased(aliases, (#[trigger] lts[i]).name@) != has_transient(
            pool,
            lts[i].name@,
        ) && has_transient(pool, resolve_alias_spec(aliases, lts[i].name@))
    &&& forall|a: int|
        0 <= a < aliases.len() ==> has_transient(pool, (#[trigger] aliases[a]).backing@) && !is_aliased(
            aliases,
            aliases[a].backing@,
        )
}

/// Where a planned resource that no physical attachment backs lives: its
/// name resolves to the transient resource assigned to it, and it is aliased
/// exactly when that transient resource was made for another resource.
proof fn lemma_resolve_planned(
    lts: Seq<ResourceLifetime>,
    specs: Seq<ImageSpec>,
    physical: Seq<bool>,
    aliases: Seq<ResourceAlias>,
    pool: Seq<TransientResource>,
    i: int,
)
    requires
        specs.len() == lts.len(),
        physical.len() == lts.len(),
        forall|k1: int, k2: int|
            0 <= k1 < lts.len() && 0 <= k2 < lts.len() && k1 != k2 ==> lts[k1].name@ != lts[k2].name@,
        aliases_view(aliases) == plan_upto(lts, specs, physical, lts.len()).aliases,
        pool_view(pool) == plan_upto(lts, specs, physical, lts.len()).pool,
        0 <= i < lts.len(),
        !physical[i],
    ensures
        ({
            let pl = plan_upto(lts, specs, physical, lts.len());
            &&& 0 <= pl.assign[i] < pool.len()
            &&& resolve_alias_spec(aliases, lts[i].name@) == pool[pl.assign[i]].name@
            &&& is_aliased(aliases, lts[i].name@) <==> pl.creator[pl.assign[i]] != i
            &&& has_transient(pool, lts[i].name@) <==> pl.creator[pl.assign[i]] == i
        }),
{
    let pl = plan_upto(lts, specs, physical, lts.len());
    lemma_plan_records(lts, specs, physical, lts.len());
    let name = lts[i].name@;
    assert(aliases.len() == pl.aliases.len());
    assert(pool.len() == pl.pool.len());
    assert(0 <= pl.assign[i] < pl.pool.len());
    let j = pl.assign[i];
    assert(pool_view(pool)[j].name == pool[j].name@);
    lemma_alias_from(aliases, name, 0);
    match alias_from(aliases, name, 0) {
        Some(q) => {
            assert(aliases_view(aliases)[q] == (aliases[q].name@, aliases[q].backing@));
            let iq = pl.aliased[q];
            assert(pl.aliases[q].0 == lts[iq].name@);
            assert(iq == i);
        },
        None => {
            if pl.creator[j] != i {
                let a = choose|a: int| 0 <= a < pl.aliased.len() && #[trigger] pl.aliased[a] == i;
                assert(aliases_view(aliases)[a] == (aliases[a].name@, aliases[a].backing@));
                assert(aliases[a].name@ != name);
                assert(false);
            }
        },
    }
    if has_transient(pool, name) {
        let j2 = choose|j2: int| 0 <= j2 < pool.len() && (#[trigger] pool[j2]).name@ == name;
        assert(pool_view(pool)[j2].name == pool[j2].name@);
        let c = pl.creator[j2];
        assert(lts[c].name@ == name);
        assert(c == i);
    }
    if pl.creator[j] == i {
        assert(pool[j].name@ == name);
    }
}

/// Memory is shared only between resources that are never live together:
/// with distinct resource names and lifetimes that start no later than they
/// end, the aliases and transient resources planned for `lts` meet
/// `aliasing_sound`.
pub proof fn lemma_aliasing_sound(
    lts: Seq<ResourceLifetime>,
    specs: Seq<ImageSpec>,
    physical: Seq<bool>,
    aliases: Seq<ResourceAlias>,
    pool: Seq<TransientResource>,
)
    requires
        specs.len() == lts.len(),
        physical.len() == lts.len(),
        forall|i: int| 0 <= i < lts.len() ==> (#[trigger] lts[i]).first <= lts[i].last,
        forall|k1: int, k2: int|
            0 <= k1 < lts.len() && 0 <= k2 < lts.len() && k1 != k2 ==> lts[k1].name@ != lts[k2].name@,
        aliases_view(aliases) == plan_upto(lts, specs, physical, lts.len()).aliases,
        pool_view(pool) == plan_upto(lts, specs, physical, lts.len()).pool,
    ensures
        aliasing_sound(lts, specs, physical, aliases, pool),
{
    let pl = plan_upto(lts, specs, physical, lts.len());
    lemma_plan_records(lts, specs, physical, lts.len());
    lemma_plan_sound(lts, specs, physical, lts.len());
    assert(aliases.len() == pl.aliases.len());
    assert(pool.len() == pl.pool.len());
    assert forall|i1: int, i2: int|
        0 <= i1 < i2 < lts.len() && !physical[i1] && !physical[i2] && #[trigger] resolve_alias_spec(
            aliases,
            lts[i1].name@,
        ) == #[trigger] resolve_alias_spec(aliases, lts[i2].name@) implies lts[i1].last < lts[i2].first
        && specs[i1] == specs[i2] by {
        lemma_resolve_planned(lts, specs, physical, aliases, pool, i1);
        lemma_resolve_planned(lts, specs, physical, aliases, pool, i2);
        let a1 = pl.assign[i1];
        let a2 = pl.assign[i2];
        assert(pool_view(pool)[a1].name == pool[a1].name@);
        assert(pool_view(pool)[a2].name == pool[a2].name@);
        let c1 = pl.creator[a1];
        let c2 = pl.creator[a2];
        assert(lts[c1].name@ == lts[c2].name@);
        assert(c1 == c2);
        assert(a1 == a2);
    }
    assert forall|i: int|
        0 <= i < lts.len() && physical[i] implies !is_aliased(aliases, (#[trigger] lts[i]).name@)
        && !has_transient(pool, lts[i].name@) by {
        let name = lts[i].name@;
        lemma_alias_from(aliases, name, 0);
        if let Some(q) = alias_from(aliases, name, 0) {
            assert(aliases_view(aliases)[q] == (aliases[q].name@, aliases[q].backing@));
            let iq = pl.aliased[q];
            assert(lts[iq].name@ == name);
        }
        if has_transient(pool, name) {
            let j2 = choose|j2: int| 0 <= j2 < pool.len() && (#[trigger] pool[j2]).name@ == name;
            assert(pool_view(pool)[j2].name == pool[j2].name@);
            let c = pl.creator[j2];
            assert(lts[c].name@ == name);
        }
    }
    assert forall|i: int|
        0 <= i < lts.len() && !physical[i] implies is_aliased(aliases, (#[trigger] lts[i]).name@)
        != has_transient(pool, lts[i].name@) && has_transient(pool, resolve_alias_spec(aliases, lts[i].name@)) by {
        lemma_resolve_planned(lts, specs, physical, aliases, pool, i);
        let j = pl.assign[i];
        assert(pool[j].name@ == resolve_alias_spec(aliases, lts[i].name@));
    }
    assert forall|a: int|
        0 <= a < aliases.len() implies has_transient(pool, (#[trigger] aliases[a]).backing@) && !is_aliased(
            aliases,
            aliases[a].backing@,
        ) by {
        assert(aliases_view(aliases)[a] == (aliases[a].name@, aliases[a].backing@));
        let i = pl.aliased[a];
        let j = pl.assign[i];
        assert(pool_view(pool)[j].name == pool[j].name@);
        assert(pool[j].name@ == aliases[a].backing@);
        let c = pl.creator[j];
        lemma_resolve_planned(lts, specs, physical, aliases, pool, c);
        assert(lts[c].name@ == aliases[a].backing@);
    }
}

/// Decides, resource by resource in the order given (the order of first
/// use), which resources share the memory of an earlier transient resource
/// and which need a transient resource of their own; physical attachments
/// take part in neither.
pub fn plan_transient_resources(
    lts: &Vec<ResourceLifetime>,
    specs: &Vec<ImageSpec>,
    physical: &Vec<bool>,
) -> (r: (Vec<ResourceAlias>, Vec<TransientResource>))
    requires
        specs@.len() == lts@.len(),
        physical@.len() == lts@.len(),
    ensures
        aliases_view(r.0@) == plan_upto(lts@, specs@, physical@, lts@.len()).aliases,
        pool_view(r.1@) == plan_upto(lts@, specs@, physical@, lts@.len()).pool,
{
    let mut aliases: Vec<ResourceAlias> = Vec::new();
    let mut pool: Vec<TransientResource> = Vec::new();
    let mut k: usize = 0;
    while k < lts.len()
        invariant
            k <= lts@.len(),
            specs@.len() == lts@.len(),
            physical@.len() == lts@.len(),
            aliases_view(aliases@) == plan_upto(lts@, specs@, physical@, k as nat).aliases,
            pool_view(pool@) == plan_upto(lts@, specs@, physical@, k as nat).pool,
        decreases lts@.len() - k,
    {
        let ghost prev = plan_upto(lts@, specs@, physical@, k as nat);
        if !physical[k] {
            let spec = specs[k];
            match find_compatible_alias(&pool, spec, lts[k].first) {
                Some(j) => {
                    aliases.push(ResourceAlias { name: lts[k].name.clone(), backing: pool[j].name.clone() });
                    let entry = TransientResource { name: pool[j].name.clone(), spec: pool[j].spec, end: lts[k].last };
                    pool.set(j, entry);
                    proof {
                        let next = plan_upto(lts@, specs@, physical@, (k + 1) as nat);
                        assert(aliases_view(aliases@) =~= next.aliases);
                        assert(pool_view(pool@) =~= next.pool);
                    }
                },
                None => {
                    pool.push(TransientResource { name: lts[k].name.clone(), spec, end: lts[k].last });
                    proof {
                        let next = plan_upto(lts@, specs@, physical@, (k + 1) as nat);
                        assert(pool_view(pool@) =~= next.pool);
                    }
                },
            }
        }
        k += 1;
    }
    (aliases, pool)
}

} // verus!

verus! {

/// A pass's declared access to a resource: access kinds and pipeline stages.
pub struct GpuResourceAccess {
    pub resource_name: String,
    pub access_flags: u32,
    pub stage_flags: u32,
}

/// A layout transition that a pass needs on an attachment image before it runs.
#[derive(Debug, Clone, Copy, PartialEq, Eq, Structural)]
pub struct ImageTransition {
    pub image: u64,
    pub new_layout: i32,
    pub src_access: u32,
    pub dst_access: u32,
    pub src_stage: u32,
    pub dst_stage: u32,
    pub aspect: u32,
}

/// An image declared by a pass, with its size resolved against the frame.
pub struct DeclaredImage {
    pub name: String,
    pub spec: ImageSpec,
}

/// The first index, from `j` on, of an attachment called `name`.
pub open spec fn attachment_from(t: Seq<GraphAttachment>, name: Seq<char>, j: int) -> Option<int>
    decreases t.len() - j,
{
    if j < 0 || j >= t.len() {
        None
    } else if t[j].name@ == name {
        Some(j)
    } else {
        attachment_from(t, name, j + 1)
    }
}

/// The attachment called `name` in table `t`.
pub open spec fn attachment_index(t: Seq<GraphAttachment>, name: Seq<char>) -> Option<int> {
    attachment_from(t, name, 0)
}

/// The first index, from `j` on, of an alias for `name`.
pub open spec fn alias_from(a: Seq<ResourceAlias>, name: Seq<char>, j: int) -> Option<int>
    decreases a.len() - j,
{
    if j < 0 || j >= a.len() {
        None
    } else if a[j].name@ == name {
        Some(j)
    } else {
        alias_from(a, name, j + 1)
    }
}

/// The first view offered in `views`, if any.
pub open spec fn first_offered(views: Seq<Option<u64>>) -> Option<u64>
    decreases views.len(),
{
    if views.len() == 0 {
        None
    } else if views[0] is Some {
        views[0]
    } else {
        first_offered(views.drop_first())
    }
}

/// The name of the resource whose memory `name` lives in: its backing when
/// it is aliased, else itself.
pub open spec fn resolve_alias_spec(a: Seq<ResourceAlias>, name: Seq<char>) -> Seq<char> {
    match alias_from(a, name, 0) {
        Some(j) => a[j].backing@,
        None => name,
    }
}

/// The declaration of image `name` among `d` from index `j` on: the last one.
pub open spec fn declared_before(d: Seq<DeclaredImage>, name: Seq<char>, k: nat) -> Option<ImageSpec>
    decreases k,
{
    if k == 0 {
        None
    } else if d[k - 1].name@ == name {
        Some(d[k - 1].spec)
    } else {
        declared_before(d, name, (k - 1) as nat)
    }
}

proof fn lemma_attachment_from(t: Seq<GraphAttachment>, name: Seq<char>, j: int)
    requires
        0 <= j,
    ensures
        attachment_from(t, name, j) matches Some(q) ==> j <= q < t.len() && t[q].name@ == name,
    decreases t.len() - j,
{
    if j < t.len() {
        lemma_attachment_from(t, name, j + 1);
    }
}

proof fn lemma_alias_from(a: Seq<ResourceAlias>, name: Seq<char>, j: int)
    requires
        0 <= j,
    ensures
        alias_from(a, name, j) matches Some(q) ==> j <= q < a.len() && a[q].name@ == name,
        alias_from(a, name, j) is None ==> forall|q: int| j <= q < a.len() ==> (#[trigger] a[q]).name@ != name,
    decreases a.len() - j,
{
    if j < a.len() {
        lemma_alias_from(a, name, j + 1);
    }
}

/// Index of the attachment called `name` in `t`.
pub fn find_attachment(t: &Vec<GraphAttachment>, name: &String) -> (r: Option<usize>)
    ensures
        r matches Some(j) ==> j < t@.len(),
        match r {
            Some(j) => attachment_index(t@, name@) == Some(j as int),
            None => attachment_index(t@, name@) is None,
        },
{
    let mut j: usize = 0;
    while j < t.len()
        invariant
            j <= t@.len(),
            attachment_index(t@, name@) == attachment_from(t@, name@, j as int),
        decreases t@.len() - j,
    {
        if str_eq(&t[j].name, name) {
            return Some(j);
        }
        j += 1;
    }
    None
}

/// Where a graph attachment was found: among the physical attachments or
/// among the transient ones, at which index.
pub enum AttachmentSlot {
    Physical(usize),
    Transient(usize),
}

impl RenderGraph {
    /// The attachment that backs `name` after alias resolution: a physical
    /// attachment of that name if there is one, else a transient one.
    pub open spec fn attachment_for(&self, name: Seq<char>) -> Option<GraphAttachment> {
        let n = resolve_alias_spec(self.aliased_resources@, name);
        match attachment_index(self.physical_attachments@, n) {
            Some(j) => Some(self.physical_attachments@[j]),
            None => match attachment_index(self.transient_attachments@, n) {
                Some(j) => Some(self.transient_attachments@[j]),
                None => None,
            },
        }
    }

    /// Every attachment holds an image and a view for frame `frame`.
    pub open spec fn attachments_cover_frame(&self, frame: int) -> bool {
        &&& forall|j: int|
            0 <= j < self.physical_attachments@.len() ==> frame < (#[trigger] self.physical_attachments@[j]).images@.len()
                && frame < self.physical_attachments@[j].views@.len()
        &&& forall|j: int|
            0 <= j < self.transient_attachments@.len() ==> frame < (#[trigger] self.transient_attachments@[j]).images@.len()
                && frame < self.transient_attachments@[j].views@.len()
    }

    /// Adds a physical attachment, or replaces the one of the same name.
    pub fn insert_physical_attachment(&mut self, att: GraphAttachment)
        ensures
            final(self).passes == old(self).passes,
            final(self).sorted_passes == old(self).sorted_passes,
            final(self).transient_attachments == old(self).transient_attachments,
            final(self).aliased_resources == old(self).aliased_resources,
            match attachment_index(old(self).physical_attachments@, att.name@) {
                Some(j) => final(self).physical_attachments@ == old(self).physical_attachments@.update(j, att),
                None => final(self).physical_attachments@ == old(self).physical_attachments@.push(att),
            },
    {
        match find_attachment(&self.physical_attachments, &att.name) {
            Some(j) => {
                self.physical_attachments.set(j, att);
            },
            None => {
                self.physical_attachments.push(att);
            },
        }
    }

    /// The name of the resource whose memory `name` lives in.
    pub fn resolve_alias<'a>(&'a self, name: &'a String) -> (r: &'a String)
        ensures
            r@ == resolve_alias_spec(self.aliased_resources@, name@),
    {
        let mut j: usize = 0;
        while j < self.aliased_resources.len()
            invariant
                j <= self.aliased_resources@.len(),
                alias_from(self.aliased_resources@, name@, 0) == alias_from(
                    self.aliased_resources@,
                    name@,
                    j as int,
                ),
            decreases self.aliased_resources@.len() - j,
        {
            if str_eq(&self.aliased_resources[j].name, name) {
                return &self.aliased_resources[j].backing;
            }
            j += 1;
        }
        name
    }

    /// The attachment that backs resource `name`, after alias resolution:
    /// physical attachments first, then transient ones.
    pub fn find_graph_attachment(&self, name: &String) -> (r: Option<AttachmentSlot>)
        ensures
            match r {
                Some(AttachmentSlot::Physical(j)) => j < self.physical_attachments@.len()
                    && self.attachment_for(name@) == Some(self.physical_attachments@[j as int]),
                Some(AttachmentSlot::Transient(j)) => j < self.transient_attachments@.len()
                    && self.attachment_for(name@) == Some(self.transient_attachments@[j as int]),
                None => self.attachment_for(name@) is None,
            },
    {
        let n = self.resolve_alias(name);
        match find_attachment(&self.physical_attachments, n) {
            Some(j) => Some(AttachmentSlot::Physical(j)),
            None => match find_attachment(&self.transient_attachments, n) {
                Some(j) => Some(AttachmentSlot::Transient(j)),
                None => None,
            },
        }
    }

    /// The view of the attachment behind resource `name` for frame `frame`,
    /// when the graph manages that resource.
    pub fn graph_resource_view(&self, name: &String, frame: usize) -> (r: Option<u64>)
        requires
            self.attachments_cover_frame(frame as int),
        ensures
            r == match self.attachment_for(name@) {
                Some(a) => Some(a.views@[frame as int]),
                None => None,
            },
    {
        match self.find_graph_attachment(name) {
            Some(AttachmentSlot::Physical(j)) => Some(self.physical_attachments[j].views[frame]),
            Some(AttachmentSlot::Transient(j)) => Some(self.transient_attachments[j].views[frame]),
            None => None,
        }
    }

    /// The view of resource `name` in frame `frame` that a pass reads: the
    /// attachment behind it (through its alias), or else the first view that
    /// a pass offers itself, where `pass_views[p]` is what pass `p` (in the
    /// order the passes were added) offers for the resolved name and frame.
    pub fn pass_resource_view(&self, name: &String, frame: usize, pass_views: &Vec<Option<u64>>) -> (r:
        Option<u64>)
        requires
            self.attachments_cover_frame(frame as int),
        ensures
            r == match self.attachment_for(name@) {
                Some(a) => Some(a.views@[frame as int]),
                None => first_offered(pass_views@),
            },
    {
        match self.graph_resource_view(name, frame) {
            Some(v) => Some(v),
            None => {
                let mut i: usize = 0;
                assert(pass_views@.subrange(0, pass_views@.len() as int) =~= pass_views@);
                while i < pass_views.len()
                    invariant
                        i <= pass_views@.len(),
                        self.attachment_for(name@) is None,
                        first_offered(pass_views@) == first_offered(pass_views@.subrange(i as int, pass_views@.len() as int)),
                    decreases pass_views@.len() - i,
                {
                    let ghost rest = pass_views@.subrange(i as int, pass_views@.len() as int);
                    proof {
                        assert(rest.drop_first() =~= pass_views@.subrange(i + 1, pass_views@.len() as int));
                        assert(rest[0] == pass_views@[i as int]);
                    }
                    if pass_views[i].is_some() {
                        assert(first_offered(rest) == pass_views@[i as int]);
                        return pass_views[i];
                    }
                    i = i + 1;
                }
                proof {
                    assert(pass_views@.subrange(i as int, pass_views@.len() as int).len() == 0);
                }
                None
            },
        }
    }

    /// The transition, if any, that access `a` needs in frame `frame`.
    pub open spec fn transition_for(&self, a: GpuResourceAccess, frame: int) -> Option<ImageTransition> {
        match self.attachment_for(a.resource_name@) {
            Some(att) => Some(
                ImageTransition {
                    image: att.images@[frame],
                    new_layout: layout_for_access(a.access_flags, a.stage_flags),
                    src_access: vulkan::ACCESS_MEMORY_WRITE | vulkan::ACCESS_MEMORY_READ,
                    dst_access: a.access_flags,
                    src_stage: vulkan::STAGE_ALL_COMMANDS,
                    dst_stage: a.stage_flags,
                    aspect: if vulkan::is_depth_format(att.format) {
                        vulkan::ASPECT_DEPTH
                    } else {
                        vulkan::ASPECT_COLOR
                    },
                },
            ),
            None => None,
        }
    }

    /// The transitions for the accesses, in order, of those that fall on an
    /// attachment the graph manages.
    pub open spec fn transitions_spec(&self, accesses: Seq<GpuResourceAccess>, frame: int) -> Seq<ImageTransition>
        decreases accesses.len(),
    {
        if accesses.len() == 0 {
            Seq::empty()
        } else {
            let rest = self.transitions_spec(accesses.drop_last(), frame);
            match self.transition_for(accesses.last(), frame) {
                Some(t) => rest.push(t),
                None => rest,
            }
        }
    }

    /// The layout transitions that a pass's declared accesses need before it
    /// runs: for each access to an attachment the graph manages, a move of
    /// that frame's image to the layout the access needs, waiting on all
    /// earlier work.
    pub fn plan_image_barriers(&self, accesses: &Vec<GpuResourceAccess>, frame: usize) -> (r: Vec<ImageTransition>)
        requires
            self.attachments_cover_frame(frame as int),
        ensures
            r@ == self.transitions_spec(accesses@, frame as int),
    {
        let mut out: Vec<ImageTransition> = Vec::new();
        let mut k: usize = 0;
        while k < accesses.len()
            invariant
                k <= accesses@.len(),
                self.attachments_cover_frame(frame as int),
                out@ == self.transitions_spec(accesses@.take(k as int), frame as int),
            decreases accesses@.len() - k,
        {
            let a = &accesses[k];
            proof {
                assert(accesses@.take(k + 1).drop_last() =~= accesses@.take(k as int));
                assert(accesses@.take(k + 1).last() == accesses@[k as int]);
            }
            let found = self.find_graph_attachment(&a.resource_name);
            let att_opt: Option<&GraphAttachment> = match found {
                Some(AttachmentSlot::Physical(j)) => Some(&self.physical_attachments[j]),
                Some(AttachmentSlot::Transient(j)) => Some(&self.transient_attachments[j]),
                None => None,
            };
            match att_opt {
                Some(att) => {
                    let t = ImageTransition {
                        image: att.images[frame],
                        new_layout: determine_layout(a.access_flags, a.stage_flags),
                        src_access: vulkan::ACCESS_MEMORY_WRITE | vulkan::ACCESS_MEMORY_READ,
                        dst_access: a.access_flags,
                        src_stage: vulkan::STAGE_ALL_COMMANDS,
                        dst_stage: a.stage_flags,
                        aspect: vulkan::aspect_mask_for_format(att.format),
                    };
                    out.push(t);
                },
                None => {},
            }
            k += 1;
        }
        proof {
            assert(accesses@.take(accesses@.len() as int) =~= accesses@);
        }
        out
    }

    /// A barrier addresses the depth aspect of an image exactly when the
    /// image has a depth format (32-bit float depth, with or without stencil,
    /// 24-bit depth with stencil, 16-bit depth), and the color aspect
    /// otherwise; an access to a resource no attachment backs needs no
    /// barrier.
    pub proof fn lemma_barrier_aspect(&self, a: GpuResourceAccess, frame: int)
        ensures
            match self.transition_for(a, frame) {
                Some(t) => {
                    let f = self.attachment_for(a.resource_name@).unwrap().format;
                    &&& (f == vulkan::FORMAT_D32_SFLOAT || f == vulkan::FORMAT_D32_SFLOAT_S8_UINT || f
                        == vulkan::FORMAT_D24_UNORM_S8_UINT || f == vulkan::FORMAT_D16_UNORM) ==> t.aspect
                        == vulkan::ASPECT_DEPTH
                    &&& !(f == vulkan::FORMAT_D32_SFLOAT || f == vulkan::FORMAT_D32_SFLOAT_S8_UINT || f
                        == vulkan::FORMAT_D24_UNORM_S8_UINT || f == vulkan::FORMAT_D16_UNORM) ==> t.aspect
                        == vulkan::ASPECT_COLOR
                },
                None => self.attachment_for(a.resource_name@) is None,
            },
    {
    }

    /// Whether some physical attachment is called `name`.
    pub fn has_physical_attachment(&self, name: &String) -> (r: bool)
        ensures
            r == attachment_index(self.physical_attachments@, name@) is Some,
    {
        find_attachment(&self.physical_attachments, name).is_some()
    }
}

/// The spec that a pass declares for image `name`: the last declaration.
pub fn find_declared(d: &Vec<DeclaredImage>, name: &String) -> (r: Option<ImageSpec>)
    ensures
        r == declared_before(d@, name@, d@.len()),
{
    let mut k: usize = d.len();
    while k > 0
        invariant
            k <= d@.len(),
            declared_before(d@, name@, d@.len()) == declared_before(d@, name@, k as nat),
        decreases k,
    {
        if str_eq(&d[k - 1].name, name) {
            return Some(d[k - 1].spec);
        }
        k -= 1;
    }
    None
}

} // verus!

verus! {

/// The image spec of each resource: declared, or the default for its name.
pub open spec fn lifetime_specs(
    lts: Seq<ResourceLifetime>,
    declared: Seq<DeclaredImage>,
    width: u32,
    height: u32,
    depth_format: i32,
) -> Seq<ImageSpec> {
    Seq::new(
        lts.len(),
        |k: int|
            match declared_before(declared, lts[k].name@, declared.len()) {
                Some(d) => d,
                None => default_image_spec(lts[k].name@, width, height, depth_format),
            },
    )
}

/// Which resources have a physical attachment of their name.
pub open spec fn lifetime_physical(physical: Seq<GraphAttachment>, lts: Seq<ResourceLifetime>) -> Seq<bool> {
    Seq::new(lts.len(), |k: int| attachment_index(physical, lts[k].name@) is Some)
}

impl RenderGraph {
    /// Works out the lifetime of every resource in the sorted order and,
    /// taking resources in order of first use, lets each resource that no
    /// physical attachment backs share the first transient image with the
    /// same spec whose users have all finished, or else asks for a new
    /// transient image. Records the aliases; returns the transient images to
    /// create, with the end of the last lifetime each one serves.
    pub fn analyze_resources_and_alias(
        &mut self,
        declared: &Vec<DeclaredImage>,
        width: u32,
        height: u32,
        depth_format: i32,
    ) -> (transients: Vec<TransientResource>)
        requires
            forall|q: int| 0 <= q < old(self).sorted_passes@.len() ==> #[trigger] old(self).sorted_passes@[q] < old(self).passes@.len(),
        ensures
            final(self).passes == old(self).passes,
            final(self).sorted_passes == old(self).sorted_passes,
            final(self).physical_attachments == old(self).physical_attachments,
            final(self).transient_attachments == old(self).transient_attachments,
            exists|lts: Seq<ResourceLifetime>| {
                let specs = lifetime_specs(lts, declared@, width, height, depth_format);
                let physical = lifetime_physical(old(self).physical_attachments@, lts);
                let pl = plan_upto(lts, specs, physical, lts.len());
                &&& #[trigger] lifetimes_correct(old(self).pass_views(), old(self).sorted_passes@, lts)
                &&& aliases_view(final(self).aliased_resources@) == pl.aliases
                &&& pool_view(transients@) == pl.pool
                &&& aliasing_sound(lts, specs, physical, final(self).aliased_resources@, transients@)
            },
    {
        let lts = self.calculate_resource_lifetimes();
        let mut specs: Vec<ImageSpec> = Vec::new();
        let mut physical: Vec<bool> = Vec::new();
        let mut k: usize = 0;
        while k < lts.len()
            invariant
                k <= lts@.len(),
                specs@.len() == k,
                physical@.len() == k,
                forall|q: int| 0 <= q < k ==> #[trigger] specs@[q] == lifetime_specs(lts@, declared@, width, height, depth_format)[q],
                forall|q: int| 0 <= q < k ==> #[trigger] physical@[q] == lifetime_physical(self.physical_attachments@, lts@)[q],
            decreases lts@.len() - k,
        {
            let d = find_declared(declared, &lts[k].name);
            let spec = resolve_resource_specs(lts[k].name.as_str(), d, width, height, depth_format);
            specs.push(spec);
            let ph = self.has_physical_attachment(&lts[k].name);
            physical.push(ph);
            k += 1;
        }
        proof {
            assert(specs@ =~= lifetime_specs(lts@, declared@, width, height, depth_format));
            assert(physical@ =~= lifetime_physical(self.physical_attachments@, lts@));
        }
        let (aliases, pool) = plan_transient_resources(&lts, &specs, &physical);
        self.aliased_resources = aliases;
        proof {
            assert(lifetimes_correct(old(self).pass_views(), old(self).sorted_passes@, lts@));
            lemma_aliasing_sound(lts@, specs@, physical@, self.aliased_resources@, pool@);
        }
        pool
    }

    /// Records the transient attachment created for a planned resource,
    /// replacing the one of the same name.
    pub fn insert_transient_attachment(&mut self, att: GraphAttachment)
        ensures
            final(self).passes == old(self).passes,
            final(self).sorted_passes == old(self).sorted_passes,
            final(self).physical_attachments == old(self).physical_attachments,
            final(self).aliased_resources == old(self).aliased_resources,
            match attachment_index(old(self).transient_attachments@, att.name@) {
                Some(j) => final(self).transient_attachments@ == old(self).transient_attachments@.update(j, att),
                None => final(self).transient_attachments@ == old(self).transient_attachments@.push(att),
            },
    {
        match find_attachment(&self.transient_attachments, &att.name) {
            Some(j) => {
                self.transient_attachments.set(j, att);
            },
            None => {
                self.transient_attachments.push(att);
            },
        }
    }
}

} // verus!

verus! {

impl RenderGraph {
    /// The passes that run this frame: the enabled ones (`enabled[p]` for
    /// pass `p`), in execution order.
    pub fn enabled_passes(&self, enabled: &Vec<bool>) -> (r: Vec<usize>)
        requires
            forall|q: int| 0 <= q < self.sorted_passes@.len() ==> #[trigger] self.sorted_passes@[q] < enabled@.len(),
        ensures
            r@ == self.sorted_passes@.filter(|p: usize| enabled@[p as int]),
    {
        let ghost pred = |p: usize| enabled@[p as int];
        let mut r: Vec<usize> = Vec::new();
        let mut i: usize = 0;
        while i < self.sorted_passes.len()
            invariant
                i <= self.sorted_passes@.len(),
                forall|q: int| 0 <= q < self.sorted_passes@.len() ==> #[trigger] self.sorted_passes@[q] < enabled@.len(),
                pred == (|p: usize| enabled@[p as int]),
                r@ == self.sorted_passes@.take(i as int).filter(pred),
            decreases self.sorted_passes@.len() - i,
        {
            let p = self.sorted_passes[i];
            proof {
                let s = self.sorted_passes@.take(i + 1);
                assert(s.drop_last() =~= self.sorted_passes@.take(i as int));
                assert(s.last() == p);
                reveal(Seq::filter);
            }
            if enabled[p] {
                r.push(p);
            }
            i = i + 1;
        }
        proof {
            assert(self.sorted_passes@.take(self.sorted_passes@.len() as int) =~= self.sorted_passes@);
        }
        r
    }
}

} // verus!
