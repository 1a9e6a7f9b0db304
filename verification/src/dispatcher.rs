//! The scheduler: a set of named systems with their dependencies, the order
//! it computes for them once, and the dispatch that runs that order every
//! frame.
use vstd::prelude::*;
use vstd::string::*;
use crate::resources::ResourceKind;
use crate::systems::System;
use crate::types::Error;
use crate::world::{World, WorldView};

verus! {

/// A declared system: the system, its name, and the names of the systems
/// that it runs after.
pub struct EntryView {
    pub system: System,
    pub name: Seq<char>,
    pub deps: Seq<Seq<char>>,
}

/// Whether no two declarations share a name.
pub open spec fn names_unique(entries: Seq<EntryView>) -> bool {
    forall|i: int, j: int| 0 <= i < j < entries.len() ==> entries[i].name != entries[j].name
}

/// Whether a system was declared under a name.
pub open spec fn declared(entries: Seq<EntryView>, name: Seq<char>) -> bool {
    exists|j: int| 0 <= j < entries.len() && entries[j].name == name
}

/// Whether every dependency names a declared system.
pub open spec fn deps_declared(entries: Seq<EntryView>) -> bool {
    forall|i: int, d: int|
        0 <= i < entries.len() && 0 <= d < entries[i].deps.len() ==> declared(
            entries,
            #[trigger] entries[i].deps[d],
        )
}

/// Whether the system of a name runs before position `k` of an order.
pub open spec fn runs_before(
    entries: Seq<EntryView>,
    order: Seq<usize>,
    k: int,
    name: Seq<char>,
) -> bool {
    exists|j: int|
        0 <= j < k && j < order.len() && order[j] < entries.len() && entries[order[j] as int].name
            == name
}

/// Whether a declaration stands in an order.
pub open spec fn listed(order: Seq<usize>, i: usize) -> bool {
    exists|k: int| 0 <= k < order.len() && order[k] == i
}

/// Whether an order of declarations, given by their positions in the list
/// of declarations, is one in which the systems can run: every declaration
/// stands in it once, after all those it depends on.
pub open spec fn is_run_order(entries: Seq<EntryView>, order: Seq<usize>) -> bool {
    &&& forall|k: int| 0 <= k < order.len() ==> (#[trigger] order[k]) < entries.len()
    &&& forall|i: usize| i < entries.len() ==> #[trigger] listed(order, i)
    &&& forall|k: int, l: int| 0 <= k < l < order.len() ==> order[k] != order[l]
    &&& forall|k: int, d: int|
        0 <= k < order.len() && 0 <= d < entries[order[k] as int].deps.len() ==> runs_before(
            entries,
            order,
            k,
            #[trigger] entries[order[k] as int].deps[d],
        )
}

/// Whether the declarations can be ordered at all. They cannot if the
/// dependencies form a cycle.
pub open spec fn schedulable(entries: Seq<EntryView>) -> bool {
    exists|order: Seq<usize>| is_run_order(entries, order)
}

/// Whether a declaration can run next, after those of `done`: it is not
/// among them, and each system it is to run after is.
pub open spec fn ready(entries: Seq<EntryView>, done: Seq<usize>, i: usize) -> bool {
    &&& !listed(done, i)
    &&& forall|d: int|
        0 <= d < entries[i as int].deps.len() ==> runs_before(
            entries,
            done,
            done.len() as int,
            #[trigger] entries[i as int].deps[d],
        )
}

/// The first declaration, from position `from` on, that can run next.
pub open spec fn next_ready(entries: Seq<EntryView>, done: Seq<usize>, from: nat) -> Option<usize>
    decreases entries.len() - from,
{
    if from >= entries.len() {
        None
    } else if ready(entries, done, from as usize) {
        Some(from as usize)
    } else {
        next_ready(entries, done, from + 1)
    }
}

/// The order that grows from `done` in at most `steps` steps, each of which
/// appends the first declaration that can run next.
pub open spec fn schedule_from(entries: Seq<EntryView>, done: Seq<usize>, steps: nat) -> Seq<
    usize,
>
    decreases steps,
{
    if steps == 0 {
        done
    } else {
        match next_ready(entries, done, 0) {
            Some(i) => schedule_from(entries, done.push(i), (steps - 1) as nat),
            None => done,
        }
    }
}

/// The order in which the systems of a set of declarations run: at each
/// step the first declaration, in the order of declaration, whose
/// dependencies have all run. It is a function of the declarations alone.
pub open spec fn schedule(entries: Seq<EntryView>) -> Seq<usize> {
    schedule_from(entries, Seq::<usize>::empty(), entries.len())
}

/// The error that stops a set of declarations from being scheduled, if one
/// does: a name declared twice comes first, then a dependency on a name
/// that was not declared, then a cycle.
pub open spec fn schedule_error(entries: Seq<EntryView>) -> Option<Error> {
    if !names_unique(entries) {
        Some(Error::DuplicateSystem)
    } else if !deps_declared(entries) {
        Some(Error::UnknownDependency)
    } else if !schedulable(entries) {
        Some(Error::DependencyCycle)
    } else {
        None
    }
}

/// Any two run orders of one set of declarations agree on every declared
/// dependency: where `later` is declared to run after `earlier`, `earlier`
/// stands before `later` in both, however the orders differ otherwise.
pub proof fn lemma_run_orders_agree(
    entries: Seq<EntryView>,
    first: Seq<usize>,
    second: Seq<usize>,
    earlier: usize,
    later: usize,
    d: int,
)
    requires
        names_unique(entries),
        is_run_order(entries, first),
        is_run_order(entries, second),
        earlier < entries.len(),
        later < entries.len(),
        0 <= d < entries[later as int].deps.len(),
        entries[later as int].deps[d] == entries[earlier as int].name,
    ensures
        forall|i: int, j: int|
            0 <= i < first.len() && 0 <= j < first.len() && first[i] == earlier && first[j]
                == later ==> i < j,
        forall|i: int, j: int|
            0 <= i < second.len() && 0 <= j < second.len() && second[i] == earlier && second[j]
                == later ==> i < j,
{
    lemma_dependency_runs_first(entries, first, earlier, later, d);
    lemma_dependency_runs_first(entries, second, earlier, later, d);
}

/// In a run order, a system stands after each system it is declared to run
/// after.
pub proof fn lemma_dependency_runs_first(
    entries: Seq<EntryView>,
    order: Seq<usize>,
    earlier: usize,
    later: usize,
    d: int,
)
    requires
        names_unique(entries),
        is_run_order(entries, order),
        earlier < entries.len(),
        later < entries.len(),
        0 <= d < entries[later as int].deps.len(),
        entries[later as int].deps[d] == entries[earlier as int].name,
    ensures
        forall|i: int, j: int|
            0 <= i < order.len() && 0 <= j < order.len() && order[i] == earlier && order[j]
                == later ==> i < j,
{
    assert forall|i: int, j: int|
        0 <= i < order.len() && 0 <= j < order.len() && order[i] == earlier && order[j]
            == later implies i < j by {
        let name = entries[order[j] as int].deps[d];
        assert(runs_before(entries, order, j, name));
        let k = choose|k: int|
            0 <= k < j && k < order.len() && order[k] < entries.len() && entries[order[k] as int].name
                == name;
        assert(order[k] == earlier);
        assert(k == i);
    }
}

/// Whether one declaration is to run after another.
pub open spec fn depends_on(entries: Seq<EntryView>, later: usize, earlier: usize) -> bool {
    exists|d: int|
        0 <= d < entries[later as int].deps.len() && #[trigger] entries[later as int].deps[d]
            == entries[earlier as int].name
}

/// The position of a declaration in an order.
pub open spec fn position(order: Seq<usize>, i: usize) -> int {
    choose|k: int| 0 <= k < order.len() && order[k] == i
}

/// Along a chain of declarations, each of which is to run after the next,
/// every declaration runs after the last of the chain.
proof fn lemma_chain(entries: Seq<EntryView>, order: Seq<usize>, chain: Seq<usize>, i: int)
    requires
        names_unique(entries),
        is_run_order(entries, order),
        forall|j: int| 0 <= j < chain.len() ==> (#[trigger] chain[j]) < entries.len(),
        forall|j: int|
            0 <= j < chain.len() - 1 ==> depends_on(entries, #[trigger] chain[j], chain[j + 1]),
        0 <= i < chain.len() - 1,
    ensures
        position(order, chain.last()) < position(order, chain[i]),
    decreases chain.len() - i,
{
    let later = chain[i];
    let earlier = chain[i + 1];
    assert(depends_on(entries, later, earlier));
    let d = choose|d: int|
        0 <= d < entries[later as int].deps.len() && #[trigger] entries[later as int].deps[d]
            == entries[earlier as int].name;
    lemma_dependency_runs_first(entries, order, earlier, later, d);
    assert(listed(order, later));
    assert(listed(order, earlier));
    if i + 1 < chain.len() - 1 {
        lemma_chain(entries, order, chain, i + 1);
    }
}

/// A cycle of dependencies cannot be scheduled: if each declaration of a
/// list is to run after the next, and the last after the first, no run
/// order exists.
pub proof fn lemma_cycle(entries: Seq<EntryView>, cycle: Seq<usize>)
    requires
        names_unique(entries),
        cycle.len() > 0,
        forall|j: int| 0 <= j < cycle.len() ==> (#[trigger] cycle[j]) < entries.len(),
        forall|j: int|
            0 <= j < cycle.len() - 1 ==> depends_on(entries, #[trigger] cycle[j], cycle[j + 1]),
        depends_on(entries, cycle.last(), cycle[0]),
    ensures
        !schedulable(entries),
{
    if schedulable(entries) {
        let order = choose|order: Seq<usize>| is_run_order(entries, order);
        let chain = cycle.push(cycle[0]);
        assert forall|j: int| 0 <= j < chain.len() - 1 implies depends_on(
            entries,
            #[trigger] chain[j],
            chain[j + 1],
        ) by {
            if j < cycle.len() - 1 {
                assert(chain[j] == cycle[j] && chain[j + 1] == cycle[j + 1]);
            } else {
                assert(chain[j] == cycle.last() && chain[j + 1] == cycle[0]);
            }
        }
        lemma_chain(entries, order, chain, 0);
        assert(chain.last() == chain[0]);
    }
}

/// The systems of a list run one after the other, the first of the list
/// first.
pub open spec fn run_all(systems: Seq<System>, w: WorldView) -> WorldView
    decreases systems.len(),
{
    if systems.len() == 0 {
        w
    } else {
        systems.last().effect(run_all(systems.drop_last(), w))
    }
}

/// A declared system.
struct Entry {
    system: System,
    name: String,
    deps: Vec<String>,
}

/// The texts of a list of strings.
spec fn texts(strings: Seq<String>) -> Seq<Seq<char>> {
    Seq::new(strings.len(), |i: int| strings[i]@)
}

impl View for Entry {
    type V = EntryView;

    closed spec fn view(&self) -> EntryView {
        EntryView { system: self.system, name: self.name@, deps: texts(self.deps@) }
    }
}

/// The views of a list of declarations.
spec fn entry_views(entries: Seq<Entry>) -> Seq<EntryView> {
    Seq::new(entries.len(), |i: int| entries[i]@)
}

/// Whether a graph holds, for each dependency of each declaration, the
/// position of the declaration of that name.
spec fn resolves(graph: Seq<Vec<usize>>, entries: Seq<EntryView>, upto: int) -> bool {
    &&& graph.len() == upto
    &&& forall|i: int| 0 <= i < upto ==> (#[trigger] graph[i])@.len() == entries[i].deps.len()
    &&& forall|i: int, d: int|
        0 <= i < upto && 0 <= d < graph[i]@.len() ==> (#[trigger] graph[i]@[d]) < entries.len()
            && entries[graph[i]@[d] as int].name == entries[i].deps[d]
}

/// Whether a node stands in an order before position `k`.
spec fn before(order: Seq<usize>, k: int, node: usize) -> bool {
    exists|j: int| 0 <= j < k && j < order.len() && order[j] == node
}

/// Whether every dependency of every node is a node.
spec fn graph_wf(graph: Seq<Vec<usize>>) -> bool {
    forall|i: int, d: int|
        0 <= i < graph.len() && 0 <= d < graph[i]@.len() ==> (#[trigger] graph[i]@[d])
            < graph.len()
}

/// Whether an order lists nodes of the graph, each at most once, each after
/// all its dependencies.
spec fn is_partial_order(graph: Seq<Vec<usize>>, order: Seq<usize>) -> bool {
    &&& forall|k: int| 0 <= k < order.len() ==> (#[trigger] order[k]) < graph.len()
    &&& forall|k: int, l: int| 0 <= k < l < order.len() ==> order[k] != order[l]
    &&& forall|k: int, d: int|
        0 <= k < order.len() && 0 <= d < graph[order[k] as int]@.len() ==> before(
            order,
            k,
            #[trigger] graph[order[k] as int]@[d],
        )
}

/// Whether an order lists every node of the graph once, each after all its
/// dependencies.
spec fn is_topological(graph: Seq<Vec<usize>>, order: Seq<usize>) -> bool {
    &&& is_partial_order(graph, order)
    &&& forall|node: usize|
        node < graph.len() ==> #[trigger] before(order, order.len() as int, node)
}

/// Whether a node cannot be placed yet: one of its dependencies is not
/// placed.
spec fn blocked(graph: Seq<Vec<usize>>, placed: Seq<bool>, i: int) -> bool {
    exists|d: int| 0 <= d < graph[i]@.len() && !placed[(#[trigger] graph[i]@[d]) as int]
}

/// How many nodes are not placed.
spec fn unplaced(placed: Seq<bool>) -> nat
    decreases placed.len(),
{
    if placed.len() == 0 {
        0
    } else {
        unplaced(placed.drop_last()) + if placed.last() { 0nat } else { 1nat }
    }
}

proof fn lemma_unplaced_update(placed: Seq<bool>, i: int)
    requires
        0 <= i < placed.len(),
        !placed[i],
    ensures
        unplaced(placed.update(i, true)) + 1 == unplaced(placed),
    decreases placed.len(),
{
    let next = placed.update(i, true);
    if i == placed.len() - 1 {
        assert(next.drop_last() =~= placed.drop_last());
    } else {
        assert(next.drop_last() =~= placed.drop_last().update(i, true));
        lemma_unplaced_update(placed.drop_last(), i);
    }
}

/// While every node that is not placed is blocked, an order in which every
/// node stands after its dependencies holds placed nodes only.
proof fn lemma_order_is_placed(
    graph: Seq<Vec<usize>>,
    placed: Seq<bool>,
    order: Seq<usize>,
    k: int,
)
    requires
        placed.len() == graph.len(),
        is_partial_order(graph, order),
        forall|i: int| 0 <= i < graph.len() && !placed[i] ==> blocked(graph, placed, i),
        0 <= k <= order.len(),
    ensures
        forall|j: int| 0 <= j < k ==> placed[(#[trigger] order[j]) as int],
    decreases k,
{
    if k > 0 {
        lemma_order_is_placed(graph, placed, order, k - 1);
        let node = order[k - 1] as int;
        if !placed[node] {
            assert(blocked(graph, placed, node));
            let d = choose|d: int|
                0 <= d < graph[node]@.len() && !placed[(#[trigger] graph[node]@[d]) as int];
            let dep = graph[node]@[d];
            assert(before(order, k - 1, dep));
            let j = choose|j: int| 0 <= j < k - 1 && j < order.len() && order[j] == dep;
            assert(placed[order[j] as int]);
        }
    }
}

/// While some node is not placed and every such node is blocked, no order
/// lists every node after its dependencies: the dependencies form a cycle.
proof fn lemma_stuck(graph: Seq<Vec<usize>>, placed: Seq<bool>, order: Seq<usize>)
    requires
        placed.len() == graph.len(),
        forall|i: int| 0 <= i < graph.len() && !placed[i] ==> blocked(graph, placed, i),
        exists|u: usize| u < graph.len() && !placed[u as int],
    ensures
        !is_topological(graph, order),
{
    if is_topological(graph, order) {
        let u = choose|u: usize| u < graph.len() && !placed[u as int];
        assert(before(order, order.len() as int, u));
        let k = choose|k: int| 0 <= k < order.len() && order[k] == u;
        lemma_order_is_placed(graph, placed, order, order.len() as int);
        assert(placed[order[k] as int]);
    }
}

proof fn lemma_unplaced_at_least_one(placed: Seq<bool>, i: int)
    requires
        0 <= i < placed.len(),
        !placed[i],
    ensures
        unplaced(placed) >= 1,
    decreases placed.len(),
{
    if i < placed.len() - 1 {
        lemma_unplaced_at_least_one(placed.drop_last(), i);
    }
}

proof fn lemma_unplaced_none_placed(placed: Seq<bool>)
    requires
        forall|i: int| 0 <= i < placed.len() ==> !placed[i],
    ensures
        unplaced(placed) == placed.len(),
    decreases placed.len(),
{
    if placed.len() > 0 {
        lemma_unplaced_none_placed(placed.drop_last());
    }
}

/// Whether the flags say which nodes stand in the order.
spec fn marks(placed: Seq<bool>, order: Seq<usize>) -> bool {
    &&& forall|k: int| 0 <= k < order.len() ==> (#[trigger] order[k]) < placed.len() && placed[order[k] as int]
    &&& forall|node: usize|
        node < placed.len() && placed[node as int] ==> #[trigger] listed(order, node)
}

/// A declaration can run next exactly when its node is not placed and not
/// blocked.
proof fn lemma_ready(
    graph: Seq<Vec<usize>>,
    entries: Seq<EntryView>,
    placed: Seq<bool>,
    order: Seq<usize>,
    i: usize,
)
    requires
        resolves(graph, entries, entries.len() as int),
        names_unique(entries),
        placed.len() == graph.len(),
        marks(placed, order),
        i < graph.len(),
    ensures
        ready(entries, order, i) <==> !placed[i as int] && !blocked(graph, placed, i as int),
{
    if !placed[i as int] && !blocked(graph, placed, i as int) {
        if listed(order, i) {
            let k = choose|k: int| 0 <= k < order.len() && order[k] == i;
            assert(placed[order[k] as int]);
        }
        assert forall|d: int| 0 <= d < entries[i as int].deps.len() implies runs_before(
            entries,
            order,
            order.len() as int,
            #[trigger] entries[i as int].deps[d],
        ) by {
            assert(graph[i as int]@.len() == entries[i as int].deps.len());
            let g = graph[i as int]@[d];
            assert(placed[g as int]);
            assert(listed(order, g));
            let k = choose|k: int| 0 <= k < order.len() && order[k] == g;
            assert(entries[order[k] as int].name == entries[i as int].deps[d]);
        }
    }
    if ready(entries, order, i) {
        if placed[i as int] {
            assert(listed(order, i));
        }
        if blocked(graph, placed, i as int) {
            let d = choose|d: int|
                0 <= d < graph[i as int]@.len() && !placed[(#[trigger] graph[i as int]@[d]) as int];
            let g = graph[i as int]@[d];
            assert(graph[i as int]@.len() == entries[i as int].deps.len());
            let name = entries[i as int].deps[d];
            assert(runs_before(entries, order, order.len() as int, name));
            let j = choose|j: int|
                0 <= j < order.len() && j < order.len() && order[j] < entries.len()
                    && entries[order[j] as int].name == name;
            assert(order[j] == g);
            assert(placed[order[j] as int]);
        }
    }
}

/// Whether every dependency of a node is placed.
fn unblocked(graph: &Vec<Vec<usize>>, placed: &Vec<bool>, i: usize) -> (r: bool)
    requires
        graph_wf(graph@),
        placed@.len() == graph@.len(),
        i < graph@.len(),
    ensures
        r == !blocked(graph@, placed@, i as int),
{
    let deps = &graph[i];
    let mut d: usize = 0;
    while d < deps.len()
        invariant
            d <= deps@.len(),
            deps@ == graph@[i as int]@,
            graph_wf(graph@),
            placed@.len() == graph@.len(),
            i < graph@.len(),
            forall|e: int| 0 <= e < d ==> placed@[(#[trigger] deps@[e]) as int],
        decreases deps.len() - d,
    {
        assert(graph@[i as int]@[d as int] < graph@.len());
        if !placed[deps[d]] {
            return false;
        }
        d = d + 1;
    }
    true
}

/// Orders the nodes of a graph so that each stands after its dependencies,
/// taking at each step the first node that is ready. `None` if there is no
/// such order.
fn toposort(graph: &Vec<Vec<usize>>, Ghost(entries): Ghost<Seq<EntryView>>) -> (r: Option<
    Vec<usize>,
>)
    requires
        resolves(graph@, entries, entries.len() as int),
        names_unique(entries),
    ensures
        r.is_some() ==> is_topological(graph@, r.unwrap()@) && r.unwrap()@ == schedule(entries),
        r.is_none() ==> forall|order: Seq<usize>| !is_topological(graph@, order),
{
    let n = graph.len();
    let mut placed: Vec<bool> = Vec::new();
    while placed.len() < n
        invariant
            placed@.len() <= n,
            forall|i: int| 0 <= i < placed@.len() ==> !placed@[i],
        decreases n - placed.len(),
    {
        placed.push(false);
    }
    let mut order: Vec<usize> = Vec::new();
    proof {
        lemma_unplaced_none_placed(placed@);
        assert(graph_wf(graph@));
    }
    loop
        invariant
            n == graph@.len(),
            graph_wf(graph@),
            resolves(graph@, entries, entries.len() as int),
            names_unique(entries),
            placed@.len() == n,
            is_partial_order(graph@, order@),
            marks(placed@, order@),
            unplaced(placed@) + order@.len() == n,
            schedule_from(entries, order@, (n - order@.len()) as nat) == schedule(entries),
        decreases unplaced(placed@),
    {
        let mut i: usize = 0;
        let mut some_unplaced = false;
        let mut found: Option<usize> = None;
        while i < n && found.is_none()
            invariant
                i <= n,
                n == graph@.len(),
                graph_wf(graph@),
                resolves(graph@, entries, entries.len() as int),
                names_unique(entries),
                placed@.len() == n,
                marks(placed@, order@),
                found.is_none() ==> (some_unplaced <==> exists|u: usize|
                    u < i && !placed@[u as int]),
                found.is_none() ==> forall|u: int|
                    0 <= u < i && !placed@[u] ==> blocked(graph@, placed@, u),
                found.is_none() ==> next_ready(entries, order@, 0) == next_ready(
                    entries,
                    order@,
                    i as nat,
                ),
                found.is_some() ==> found.unwrap() < n && !placed@[found.unwrap() as int]
                    && !blocked(graph@, placed@, found.unwrap() as int) && next_ready(
                    entries,
                    order@,
                    0,
                ) == found,
            decreases n - i + if found.is_none() { 1int } else { 0int },
        {
            proof {
                lemma_ready(graph@, entries, placed@, order@, i);
            }
            if !placed[i] {
                some_unplaced = true;
                if unblocked(graph, &placed, i) {
                    found = Some(i);
                }
            }
            if found.is_none() {
                i = i + 1;
            }
        }
        match found {
            Some(node) => {
                let ghost old_order = order@;
                let ghost old_placed = placed@;
                placed[node] = true;
                order.push(node);
                proof {
                    lemma_unplaced_update(old_placed, node as int);
                    lemma_unplaced_at_least_one(old_placed, node as int);
                    assert(placed@ == old_placed.update(node as int, true));
                    let last = old_order.len() as int;
                    assert forall|k: int, l: int| 0 <= k < l < order@.len() implies order@[k]
                        != order@[l] by {
                        if l == last {
                            assert(old_placed[old_order[k] as int]);
                        }
                    }
                    assert forall|k: int, d: int|
                        0 <= k < order@.len() && 0 <= d < graph@[order@[k] as int]@.len() implies before(
                        order@,
                        k,
                        #[trigger] graph@[order@[k] as int]@[d],
                    ) by {
                        let dep = graph@[order@[k] as int]@[d];
                        if k == last {
                            assert(old_placed[dep as int]);
                            assert(listed(old_order, dep));
                            let j = choose|j: int| 0 <= j < old_order.len() && old_order[j] == dep;
                            assert(order@[j] == dep);
                        } else {
                            assert(old_order[k] == order@[k]);
                            assert(before(old_order, k, dep));
                            let j = choose|j: int|
                                0 <= j < k && j < old_order.len() && old_order[j] == dep;
                            assert(order@[j] == dep);
                        }
                    }
                    assert forall|other: usize| other < n && placed@[other as int] implies
                        #[trigger] listed(order@, other) by {
                        if other == node {
                            assert(order@[last] == node);
                        } else {
                            assert(listed(old_order, other));
                            let j = choose|j: int|
                                0 <= j < old_order.len() && old_order[j] == other;
                            assert(order@[j] == other);
                        }
                    }
                    assert forall|k: int| 0 <= k < order@.len() implies (#[trigger] order@[k])
                        < placed@.len() && placed@[order@[k] as int] by {
                        if k < last {
                            assert(old_order[k] == order@[k]);
                        }
                    }
                    assert(order@ == old_order.push(node));
                }
            },
            None => {
                if some_unplaced {
                    proof {
                        assert forall|o: Seq<usize>| !is_topological(graph@, o) by {
                            lemma_stuck(graph@, placed@, o);
                        }
                    }
                    return None;
                } else {
                    proof {
                        assert forall|node: usize| node < graph@.len() implies #[trigger] before(
                            order@,
                            order@.len() as int,
                            node,
                        ) by {
                            assert(listed(order@, node));
                        }
                    }
                    return Some(order);
                }
            },
        }
    }
}

/// A topological order of the resolved graph is a run order of the
/// declarations.
proof fn lemma_topological_is_run_order(
    graph: Seq<Vec<usize>>,
    entries: Seq<EntryView>,
    order: Seq<usize>,
)
    requires
        resolves(graph, entries, entries.len() as int),
        is_topological(graph, order),
    ensures
        is_run_order(entries, order),
{
    assert forall|i: usize| i < entries.len() implies #[trigger] listed(order, i) by {
        assert(before(order, order.len() as int, i));
    }
    assert forall|k: int, d: int|
        0 <= k < order.len() && 0 <= d < entries[order[k] as int].deps.len() implies runs_before(
        entries,
        order,
        k,
        #[trigger] entries[order[k] as int].deps[d],
    ) by {
        let node = order[k] as int;
        assert(graph[node]@.len() == entries[node].deps.len());
        let dep = graph[node]@[d];
        assert(before(order, k, dep));
        let j = choose|j: int| 0 <= j < k && j < order.len() && order[j] == dep;
        assert(entries[order[j] as int].name == entries[node].deps[d]);
    }
}

/// A run order of declarations with unique names is a topological order of
/// the resolved graph.
proof fn lemma_run_order_is_topological(
    graph: Seq<Vec<usize>>,
    entries: Seq<EntryView>,
    order: Seq<usize>,
)
    requires
        resolves(graph, entries, entries.len() as int),
        names_unique(entries),
        is_run_order(entries, order),
    ensures
        is_topological(graph, order),
{
    assert forall|k: int, d: int|
        0 <= k < order.len() && 0 <= d < graph[order[k] as int]@.len() implies before(
        order,
        k,
        #[trigger] graph[order[k] as int]@[d],
    ) by {
        let node = order[k] as int;
        assert(graph[node]@.len() == entries[node].deps.len());
        let dep = graph[node]@[d];
        let name = entries[node].deps[d];
        assert(runs_before(entries, order, k, name));
        let j = choose|j: int|
            0 <= j < k && j < order.len() && order[j] < entries.len() && entries[order[j] as int].name
                == name;
        assert(order[j] == dep);
    }
    assert forall|node: usize| node < graph.len() implies #[trigger] before(
        order,
        order.len() as int,
        node,
    ) by {
        assert(listed(order, node));
    }
}

/// What a dispatcher holds: the declarations, and the order in which their
/// systems run, as positions in the list of declarations.
pub struct DispatcherView {
    pub entries: Seq<EntryView>,
    pub order: Seq<usize>,
}

impl DispatcherView {
    /// The systems in the order in which they run.
    pub open spec fn systems(self) -> Seq<System> {
        Seq::new(self.order.len(), |k: int| self.entries[self.order[k] as int].system)
    }

    /// Whether some system declares a resource.
    pub open spec fn needs(self, kind: ResourceKind) -> bool {
        exists|i: int| 0 <= i < self.entries.len() && (#[trigger] self.entries[i]).system.needs(kind)
    }
}

/// Runs a fixed set of systems in a fixed order.
pub struct Dispatcher {
    entries: Vec<Entry>,
    order: Vec<usize>,
}

impl View for Dispatcher {
    type V = DispatcherView;

    closed spec fn view(&self) -> DispatcherView {
        DispatcherView { entries: entry_views(self.entries@), order: self.order@ }
    }
}

impl Dispatcher {
    #[verifier::type_invariant]
    spec fn inv(self) -> bool {
        &&& schedule_error(self@.entries).is_none()
        &&& self@.order == schedule(self@.entries)
        &&& is_run_order(self@.entries, self@.order)
    }

    /// Runs every system once, in the order computed when the dispatcher
    /// was built.
    pub fn dispatch(&self, world: &mut World)
        ensures
            final(world)@ == run_all(self@.systems(), old(world)@),
            self@.order == schedule(self@.entries),
            is_run_order(self@.entries, self@.order),
    {
        proof {
            use_type_invariant(self);
        }
        let ghost start = world@;
        let ghost systems = self@.systems();
        let mut k: usize = 0;
        assert(systems.take(0) =~= Seq::<System>::empty());
        while k < self.order.len()
            invariant
                k <= self.order@.len(),
                systems == self@.systems(),
                self@.order == schedule(self@.entries),
                is_run_order(self@.entries, self@.order),
                world@ == run_all(systems.take(k as int), start),
            decreases self.order.len() - k,
        {
            let position = self.order[k];
            let mut system = self.entries[position].system;
            system.run(world);
            proof {
                assert(systems.take(k + 1).drop_last() =~= systems.take(k as int));
                assert(systems.take(k + 1).last() == system);
            }
            k = k + 1;
        }
        assert(systems.take(systems.len() as int) =~= systems);
    }

    /// Checks that the world holds every resource that a system declares.
    /// A scene does so before its first frame.
    pub fn setup(&self, world: &World) -> (r: Result<(), Error>)
        ensures
            r.is_ok() <==> forall|kind: ResourceKind|
                self@.needs(kind) ==> world@.resources.holds(kind),
            r.is_err() ==> r == Err::<(), Error>(Error::MissingResource),
    {
        let mut i: usize = 0;
        while i < self.entries.len()
            invariant
                i <= self.entries@.len(),
                forall|j: int, kind: ResourceKind|
                    0 <= j < i && (#[trigger] self@.entries[j]).system.needs(kind)
                        ==> #[trigger] world@.resources.holds(kind),
            decreases self.entries.len() - i,
        {
            let system = self.entries[i].system;
            assert(self@.entries[i as int].system == system);
            if system.needs_resource(ResourceKind::Input) && !world.resources.has(
                ResourceKind::Input,
            ) {
                assert(self@.needs(ResourceKind::Input));
                return Err(Error::MissingResource);
            }
            if system.needs_resource(ResourceKind::Selected) && !world.resources.has(
                ResourceKind::Selected,
            ) {
                assert(self@.needs(ResourceKind::Selected));
                return Err(Error::MissingResource);
            }
            if system.needs_resource(ResourceKind::GridMap) && !world.resources.has(
                ResourceKind::GridMap,
            ) {
                assert(self@.needs(ResourceKind::GridMap));
                return Err(Error::MissingResource);
            }
            assert forall|kind: ResourceKind| system.needs(kind) implies world@.resources.holds(
                kind,
            ) by {
                assert(kind == ResourceKind::Input || kind == ResourceKind::Selected || kind
                    == ResourceKind::GridMap);
            }
            i = i + 1;
        }
        Ok(())
    }

    /// How many systems run at each dispatch.
    pub fn len(&self) -> (n: usize)
        ensures
            n == self@.order.len(),
    {
        self.order.len()
    }

    /// The name of the system that runs at a position of the order.
    pub fn name_at(&self, k: usize) -> (name: Option<&String>)
        ensures
            name.is_some() == (k < self@.order.len()),
            name.is_some() ==> name.unwrap()@ == self@.entries[self@.order[k as int] as int].name,
    {
        proof {
            use_type_invariant(self);
        }
        if k < self.order.len() {
            Some(&self.entries[self.order[k]].name)
        } else {
            None
        }
    }
}

/// Collects the declarations of systems for a dispatcher.
pub struct DispatcherBuilder {
    entries: Vec<Entry>,
}

impl View for DispatcherBuilder {
    type V = Seq<EntryView>;

    closed spec fn view(&self) -> Seq<EntryView> {
        entry_views(self.entries@)
    }
}

/// The position of the declaration of a name.
fn find(entries: &Vec<Entry>, name: &String) -> (r: Option<usize>)
    ensures
        r.is_some() ==> r.unwrap() < entries@.len() && entry_views(entries@)[r.unwrap() as int].name
            == name@,
        r.is_none() ==> !declared(entry_views(entries@), name@),
{
    let mut j: usize = 0;
    while j < entries.len()
        invariant
            j <= entries@.len(),
            forall|i: int| 0 <= i < j ==> (#[trigger] entry_views(entries@)[i]).name != name@,
        decreases entries.len() - j,
    {
        if entries[j].name == *name {
            return Some(j);
        }
        j = j + 1;
    }
    None
}

/// Whether no two declarations share a name.
fn unique(entries: &Vec<Entry>) -> (r: bool)
    ensures
        r == names_unique(entry_views(entries@)),
{
    let mut j: usize = 0;
    while j < entries.len()
        invariant
            j <= entries@.len(),
            forall|a: int, b: int|
                0 <= a < b < j ==> entry_views(entries@)[a].name != entry_views(entries@)[b].name,
        decreases entries.len() - j,
    {
        let mut i: usize = 0;
        while i < j
            invariant
                i <= j,
                j < entries@.len(),
                forall|a: int|
                    0 <= a < i ==> (#[trigger] entry_views(entries@)[a]).name != entry_views(
                        entries@,
                    )[j as int].name,
            decreases j - i,
        {
            if entries[i].name == entries[j].name {
                assert(entry_views(entries@)[i as int].name == entry_views(entries@)[j as int].name);
                return false;
            }
            i = i + 1;
        }
        j = j + 1;
    }
    true
}

impl DispatcherBuilder {
    /// No declaration yet.
    pub fn new() -> (builder: DispatcherBuilder)
        ensures
            builder@ == Seq::<EntryView>::empty(),
    {
        let builder = DispatcherBuilder { entries: Vec::new() };
        assert(builder@ =~= Seq::<EntryView>::empty());
        builder
    }

    /// Declares a system under a name, to run after the systems of the
    /// given names. Whether those names are declared, before or after this
    /// one, is checked when the dispatcher is built.
    pub fn with(self, system: System, name: &str, deps: &[&str]) -> (builder: DispatcherBuilder)
        ensures
            builder@ == self@.push(
                EntryView {
                    system,
                    name: name@,
                    deps: Seq::new(deps@.len(), |d: int| deps@[d]@),
                },
            ),
    {
        let mut names: Vec<String> = Vec::new();
        let mut d: usize = 0;
        while d < deps.len()
            invariant
                d <= deps@.len(),
                names@.len() == d,
                forall|e: int| 0 <= e < d ==> (#[trigger] names@[e])@ == deps@[e]@,
            decreases deps.len() - d,
        {
            names.push(String::from_str(deps[d]));
            d = d + 1;
        }
        let entry = Entry { system, name: String::from_str(name), deps: names };
        let ghost view = EntryView {
            system,
            name: name@,
            deps: Seq::new(deps@.len(), |d: int| deps@[d]@),
        };
        assert(entry@.deps =~= view.deps);
        let mut entries = self.entries;
        entries.push(entry);
        let builder = DispatcherBuilder { entries };
        assert(builder@ =~= self@.push(view));
        builder
    }

    /// Computes the order in which the systems run, once and for all.
    ///
    /// Fails if two systems share a name, if a system is to run after a
    /// name that was not declared, or if no order lets every system run
    /// after all those it depends on.
    pub fn build(self) -> (r: Result<Dispatcher, Error>)
        ensures
            match r {
                Ok(dispatcher) => {
                    &&& schedule_error(self@).is_none()
                    &&& dispatcher@.entries == self@
                    &&& dispatcher@.order == schedule(self@)
                    &&& is_run_order(self@, dispatcher@.order)
                },
                Err(e) => schedule_error(self@) == Some(e),
            },
    {
        let ghost views = self@;
        if !unique(&self.entries) {
            return Err(Error::DuplicateSystem);
        }
        let n = self.entries.len();
        let mut graph: Vec<Vec<usize>> = Vec::new();
        let mut i: usize = 0;
        while i < n
            invariant
                i <= n,
                n == self.entries@.len(),
                views == entry_views(self.entries@),
                names_unique(views),
                resolves(graph@, views, i as int),
            decreases n - i,
        {
            let deps = &self.entries[i].deps;
            let mut row: Vec<usize> = Vec::new();
            let mut d: usize = 0;
            while d < deps.len()
                invariant
                    d <= deps@.len(),
                    i < n,
                    n == self.entries@.len(),
                    views == entry_views(self.entries@),
                    names_unique(views),
                    texts(deps@) == views[i as int].deps,
                    row@.len() == d,
                    forall|e: int|
                        0 <= e < d ==> (#[trigger] row@[e]) < n && views[row@[e] as int].name
                            == views[i as int].deps[e],
                decreases deps.len() - d,
            {
                match find(&self.entries, &deps[d]) {
                    Some(j) => {
                        assert(texts(deps@)[d as int] == deps@[d as int]@);
                        row.push(j);
                    },
                    None => {
                        proof {
                            assert(texts(deps@)[d as int] == deps@[d as int]@);
                            assert(!declared(views, views[i as int].deps[d as int]));
                        }
                        return Err(Error::UnknownDependency);
                    },
                }
                d = d + 1;
            }
            graph.push(row);
            i = i + 1;
        }
        proof {
            assert forall|i: int, d: int|
                0 <= i < views.len() && 0 <= d < views[i].deps.len() implies declared(
                views,
                #[trigger] views[i].deps[d],
            ) by {
                assert(graph@[i]@.len() == views[i].deps.len());
                let j = graph@[i]@[d];
                assert(views[j as int].name == views[i].deps[d]);
            }
            assert(graph_wf(graph@));
        }
        match toposort(&graph, Ghost(views)) {
            Some(order) => {
                proof {
                    lemma_topological_is_run_order(graph@, views, order@);
                }
                Ok(Dispatcher { entries: self.entries, order })
            },
            None => {
                proof {
                    assert forall|order: Seq<usize>| !is_run_order(views, order) by {
                        if is_run_order(views, order) {
                            lemma_run_order_is_topological(graph@, views, order);
                        }
                    }
                }
                Err(Error::DependencyCycle)
            },
        }
    }
}

} // verus!
