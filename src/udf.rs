//! A user-defined function that sums the payloads of a subgraph, and the
//! dispatcher that runs it on a vertex wherever the vertex lives.
use std::collections::HashMap;
use vstd::prelude::*;

use crate::graph::Graph;
use crate::vertex::{Data, MachineID, Vertex, VertexID, VertexType};

verus! {

broadcast use vstd::std_specs::hash::group_hash_axioms;

/// Sums the payloads of the subgraph below a vertex, following outgoing
/// edges.
pub struct GraphSum;

/// Why a sum could not be computed.
#[derive(Clone, Copy, Debug, PartialEq, Eq, Structural)]
pub enum SumError {
    /// An edge names a vertex that the graph does not hold.
    MissingVertex(VertexID),
    /// A resident vertex holds no payload.
    MissingPayload(VertexID),
    /// The result of a remote vertex is needed and not yet known: run
    /// the function on `vertex` at `machine`, then compute again.
    RemoteResultNeeded { vertex: VertexID, machine: MachineID },
    /// The sum at a vertex does not fit an `isize`.
    Overflow(VertexID),
    /// The depth allowed ran out: the graph has a cycle below the vertex.
    DepthExceeded(VertexID),
}

pub open spec fn add_opt(a: Option<int>, b: Option<int>) -> Option<int> {
    match (a, b) {
        (Some(x), Some(y)) => Some(x + y),
        _ => None,
    }
}

/// The sum at vertex `v` with `depth` levels of resident vertices allowed
/// below and including it; a remote vertex contributes its entry in
/// `known`. `None` where the sum is not defined.
pub open spec fn dispatch_sum(
    g: Map<VertexID, Vertex<isize>>,
    known: Map<VertexID, isize>,
    v: Vertex<isize>,
    depth: nat,
) -> Option<int>
    decreases depth, 1nat,
{
    match v.v_type {
        VertexType::Remote(_) => if known.contains_key(v.id) {
            Some(known[v.id] as int)
        } else {
            None
        },
        _ => local_sum(g, known, v, depth),
    }
}

/// What one child adds to a running sum.
pub open spec fn child_step(
    g: Map<VertexID, Vertex<isize>>,
    known: Map<VertexID, isize>,
    depth: nat,
) -> spec_fn(Option<int>, VertexID) -> Option<int>
    decreases depth, 2nat,
{
    |acc: Option<int>, c: VertexID|
        add_opt(
            acc,
            if g.contains_key(c) {
                dispatch_sum(g, known, g[c], depth)
            } else {
                None
            },
        )
}

/// The sum at resident vertex `v`: its payload plus the sums at its
/// children, defined when every part is and the total fits an `isize`.
pub open spec fn local_sum(
    g: Map<VertexID, Vertex<isize>>,
    known: Map<VertexID, isize>,
    v: Vertex<isize>,
    depth: nat,
) -> Option<int>
    decreases depth, 0nat,
{
    if depth == 0 {
        None
    } else {
        match v.local().spec_data() {
            None => None,
            Some(d) => {
                let total = v.local().spec_children().fold(
                    Some(d.0 as int),
                    child_step(g, known, (depth - 1) as nat),
                );
                match total {
                    Some(t) => if isize::MIN <= t <= isize::MAX {
                        Some(t)
                    } else {
                        None
                    },
                    None => None,
                }
            },
        }
    }
}

proof fn lemma_child_step_commutes(
    g: Map<VertexID, Vertex<isize>>,
    known: Map<VertexID, isize>,
    depth: nat,
)
    ensures
        vstd::set::fold::is_fun_commutative(child_step(g, known, depth)),
{
    let f = child_step(g, known, depth);
    assert forall|a1: VertexID, a2: VertexID, b: Option<int>|
        #[trigger] f(f(b, a2), a1) == f(f(b, a1), a2) by {}
}

impl Vertex<isize> {
    /// Runs `udf` on this vertex wherever it lives: in this process for a
    /// local or borrowed vertex, and for a remote one by its result in
    /// `remote_results`, which the caller fills by remote calls. `depth`
    /// bounds the levels of resident vertices visited.
    pub fn apply_function(
        &self,
        udf: &GraphSum,
        graph: &Graph<isize>,
        aux_info: Option<u64>,
        remote_results: &HashMap<VertexID, isize>,
        depth: usize,
    ) -> (r: Result<isize, SumError>)
        ensures
            r is Ok <==> dispatch_sum(graph@, remote_results@, *self, depth as nat) is Some,
            r matches Ok(x) ==> x == dispatch_sum(graph@, remote_results@, *self, depth as nat)->0,
            self.spec_remote_location() is Some && !remote_results@.contains_key(self.id) ==> r
                == Err::<isize, SumError>(
                SumError::RemoteResultNeeded {
                    vertex: self.id,
                    machine: self.spec_remote_location()->0,
                },
            ),
            self.is_resident() && depth == 0 ==> r == Err::<isize, SumError>(
                SumError::DepthExceeded(self.id),
            ),
            self.is_resident() && depth > 0 && self.local().spec_data() is None ==> r == Err::<
                isize,
                SumError,
            >(SumError::MissingPayload(self.id)),
            self.is_resident() && depth > 0 && self.local().spec_data() is Some
                && !self.local().spec_children().subset_of(graph@.dom()) ==> (r matches Err(
                SumError::MissingVertex(c),
            ) && self.local().spec_children().contains(c) && !graph@.contains_key(c)),
            self.is_resident() && depth > 0 && (self.local().spec_data() matches Some(d)
                && self.local().spec_children().fold(
                Some(d.0 as int),
                child_step(graph@, remote_results@, (depth - 1) as nat),
            ) matches Some(t) && !(isize::MIN <= t <= isize::MAX)) ==> r == Err::<isize, SumError>(
                SumError::Overflow(self.id),
            ),
        decreases depth, 1nat,
    {
        match &self.v_type {
            VertexType::Remote(remote_vertex) => match remote_results.get(&self.id) {
                Some(x) => Ok(*x),
                None => Err(
                    SumError::RemoteResultNeeded { vertex: self.id, machine: remote_vertex.location() },
                ),
            },
            _ => udf.execute(self, graph, aux_info, remote_results, depth),
        }
    }
}

impl GraphSum {
    /// The payload of resident `vertex` plus the results of the function
    /// on each of its children, each run through the dispatcher.
    pub fn execute(
        &self,
        vertex: &Vertex<isize>,
        graph: &Graph<isize>,
        aux_info: Option<u64>,
        remote_results: &HashMap<VertexID, isize>,
        depth: usize,
    ) -> (r: Result<isize, SumError>)
        requires
            vertex.is_resident(),
        ensures
            r is Ok <==> local_sum(graph@, remote_results@, *vertex, depth as nat) is Some,
            r matches Ok(x) ==> x == local_sum(graph@, remote_results@, *vertex, depth as nat)->0,
            depth == 0 ==> r == Err::<isize, SumError>(SumError::DepthExceeded(vertex.id)),
            depth > 0 && vertex.local().spec_data() is None ==> r == Err::<isize, SumError>(
                SumError::MissingPayload(vertex.id),
            ),
            depth > 0 && vertex.local().spec_data() is Some && !vertex.local().spec_children().subset_of(
                graph@.dom(),
            ) ==> (r matches Err(SumError::MissingVertex(c)) && vertex.local().spec_children().contains(
                c,
            ) && !graph@.contains_key(c)),
            depth > 0 && (vertex.local().spec_data() matches Some(d) && vertex.local().spec_children().fold(
                Some(d.0 as int),
                child_step(graph@, remote_results@, (depth - 1) as nat),
            ) matches Some(t) && !(isize::MIN <= t <= isize::MAX)) ==> r == Err::<isize, SumError>(
                SumError::Overflow(vertex.id),
            ),
        decreases depth, 0nat,
    {
        if depth == 0 {
            return Err(SumError::DepthExceeded(vertex.id));
        }
        let payload: isize = match vertex.get_val() {
            Some(d) => d.0,
            None => {
                return Err(SumError::MissingPayload(vertex.id));
            },
        };
        let children = vertex.children();
        let n = children.len();
        let ghost mut checked: Set<VertexID> = Set::empty();
        for c in it: children.iter()
            invariant
                depth > 0,
                vertex.is_resident(),
                vertex.local().spec_data() == Some(Data(payload)),
                children@ == vertex.local().spec_children(),
                it.seq().unref().to_set() == children@,
                it.seq().len() == n,
                checked == it.seq().unref().take(it.index() as int).to_set(),
                forall|x: VertexID| checked.contains(x) ==> graph@.contains_key(x),
                it.index() == n ==> checked == children@,
        {
            let ghost done = it.seq().unref().take(it.index() as int);
            let ghost all = it.seq().unref();
            proof {
                assert(all.contains(*c));
            }
            if graph.get(c).is_none() {
                proof {
                    let rest = children@.remove(*c);
                    vstd::seq_lib::seq_to_set_is_finite(all);
                    lemma_child_step_commutes(graph@, remote_results@, (depth - 1) as nat);
                    vstd::set::fold::lemma_fold_insert(
                        rest,
                        Some(payload as int),
                        child_step(graph@, remote_results@, (depth - 1) as nat),
                        *c,
                    );
                    assert(rest.insert(*c) == children@);
                }
                return Err(SumError::MissingVertex(*c));
            }
            proof {
                assert(all.take(it.index() + 1) == done.push(*c));
                done.lemma_push_to_set_commute(*c);
                checked = checked.insert(*c);
                if it.index() + 1 == n {
                    assert(all.take(it.index() + 1) == all);
                }
            }
        }
        let ghost step = child_step(graph@, remote_results@, (depth - 1) as nat);
        let ghost z = Some(payload as int);
        proof {
            lemma_child_step_commutes(graph@, remote_results@, (depth - 1) as nat);
        }
        let mut total: i128 = payload as i128;
        let mut failure: Option<SumError> = None;
        let ghost mut seen: Set<VertexID> = Set::empty();
        proof {
            vstd::set::fold::lemma_fold_empty(z, step);
        }
        for c in it: children.iter()
            invariant
                depth > 0,
                n == children@.len(),
                children@ == vertex.local().spec_children(),
                step == child_step(graph@, remote_results@, (depth - 1) as nat),
                vstd::set::fold::is_fun_commutative(step),
                it.seq().unref().no_duplicates(),
                it.seq().unref().to_set() == children@,
                it.seq().len() == n,
                seen == it.seq().unref().take(it.index() as int).to_set(),
                seen.finite(),
                it.index() == n ==> seen == children@,
                failure is None ==> seen.fold(z, step) == Some(total as int),
                failure is Some ==> seen.fold(z, step) is None,
                -0x8000_0000_0000_0000 * (it.index() + 1) <= total <= 0x7fff_ffff_ffff_ffff * (
                it.index() + 1),
        {
            let ghost done = it.seq().unref().take(it.index() as int);
            let ghost x = *c;
            if failure.is_none() {
                match graph.get(c) {
                    None => {
                        failure = Some(SumError::MissingVertex(*c));
                    },
                    Some(child) => match child.apply_function(
                        self,
                        graph,
                        aux_info,
                        remote_results,
                        depth - 1,
                    ) {
                        Ok(v) => {
                            proof {
                                assert(-0x8000_0000_0000_0000 * (it.index() + 2) <= total + v
                                    <= 0x7fff_ffff_ffff_ffff * (it.index() + 2)) by (nonlinear_arith)
                                    requires
                                        -0x8000_0000_0000_0000 * (it.index() + 1) <= total
                                            <= 0x7fff_ffff_ffff_ffff * (it.index() + 1),
                                        -0x8000_0000_0000_0000 <= v <= 0x7fff_ffff_ffff_ffff,
                                        it.index() < n,
                                        n <= usize::MAX,
                                ;
                            }
                            total = total + v as i128;
                        },
                        Err(e) => {
                            failure = Some(e);
                        },
                    },
                }
            }
            proof {
                let all = it.seq().unref();
                assert(all.take(it.index() + 1) == done.push(x));
                done.lemma_push_to_set_commute(x);
                vstd::seq_lib::seq_to_set_is_finite(done);
                assert(!done.to_set().contains(x)) by {
                    if done.to_set().contains(x) {
                        let j = choose|j: int| 0 <= j < done.len() && done[j] == x;
                        assert(all[j] == all[it.index() as int]);
                    }
                }
                vstd::set::fold::lemma_fold_insert(done.to_set(), z, step, x);
                seen = seen.insert(x);
                vstd::seq_lib::seq_to_set_is_finite(done.push(x));
                if it.index() + 1 == n {
                    assert(all.take(it.index() + 1) == all);
                }
            }
        }
        match failure {
            Some(e) => Err(e),
            None => {
                if total < isize::MIN as i128 || total > isize::MAX as i128 {
                    Err(SumError::Overflow(vertex.id))
                } else {
                    Ok(total as isize)
                }
            },
        }
    }
}

impl GraphSum {
    /// The sum at vertex `root` of `graph`, with as many levels of
    /// resident vertices allowed as the graph has vertices.
    pub fn sum_from(
        &self,
        graph: &Graph<isize>,
        root: VertexID,
        aux_info: Option<u64>,
        remote_results: &HashMap<VertexID, isize>,
    ) -> (r: Result<isize, SumError>)
        ensures
            !graph@.contains_key(root) ==> r == Err::<isize, SumError>(
                SumError::MissingVertex(root),
            ),
            graph@.contains_key(root) ==> (r is Ok <==> dispatch_sum(
                graph@,
                remote_results@,
                graph@[root],
                graph@.len(),
            ) is Some),
            r matches Ok(x) ==> x == dispatch_sum(
                graph@,
                remote_results@,
                graph@[root],
                graph@.len(),
            )->0,
    {
        match graph.get(&root) {
            None => Err(SumError::MissingVertex(root)),
            Some(vertex) => vertex.apply_function(
                self,
                graph,
                aux_info,
                remote_results,
                graph.len(),
            ),
        }
    }
}

/// A resident vertex with a payload and no children sums to its payload
/// alone, wherever it was reached from.
pub proof fn lemma_leaf_sum(
    g: Map<VertexID, Vertex<isize>>,
    known: Map<VertexID, isize>,
    v: Vertex<isize>,
    payload: isize,
    depth: nat,
)
    requires
        v.is_resident(),
        v.local().spec_data() == Some(Data(payload)),
        v.local().spec_children() == Set::<VertexID>::empty(),
        depth >= 1,
    ensures
        dispatch_sum(g, known, v, depth) == Some(payload as int),
        local_sum(g, known, v, depth) == Some(payload as int),
{
    vstd::set::fold::lemma_fold_empty(
        Some(payload as int),
        child_step(g, known, (depth - 1) as nat),
    );
}

/// The vertices `ids` form a chain of resident vertices, each holding
/// `value` and pointing at the next one only; the last has no child.
pub open spec fn is_chain(g: Map<VertexID, Vertex<isize>>, ids: Seq<VertexID>, value: isize) -> bool {
    &&& ids.len() > 0
    &&& forall|i: int|
        0 <= i < ids.len() ==> {
            &&& g.contains_key(#[trigger] ids[i])
            &&& g[ids[i]].is_resident()
            &&& g[ids[i]].local().spec_data() == Some(Data(value))
        }
    &&& forall|i: int|
        0 <= i < ids.len() - 1 ==> g[#[trigger] ids[i]].local().spec_children() == set![ids[i + 1]]
    &&& g[ids.last()].local().spec_children() == Set::<VertexID>::empty()
}

proof fn lemma_chain_suffix_sum(
    g: Map<VertexID, Vertex<isize>>,
    known: Map<VertexID, isize>,
    ids: Seq<VertexID>,
    value: isize,
    i: int,
    depth: nat,
)
    requires
        is_chain(g, ids, value),
        0 <= i < ids.len(),
        depth >= ids.len() - i,
        isize::MIN <= ids.len() * value <= isize::MAX,
    ensures
        dispatch_sum(g, known, g[ids[i]], depth) == Some((ids.len() - i) * value),
    decreases ids.len() - i,
{
    let v = g[ids[i]];
    let step = child_step(g, known, (depth - 1) as nat);
    let z = Some(value as int);
    assert(g.contains_key(ids[i]));
    if i == ids.len() - 1 {
        lemma_leaf_sum(g, known, v, value, depth);
        assert((ids.len() - i) * value == value as int) by (nonlinear_arith)
            requires
                i == ids.len() - 1,
        ;
    } else {
        let next = ids[i + 1];
        lemma_chain_suffix_sum(g, known, ids, value, i + 1, (depth - 1) as nat);
        assert(g.contains_key(ids[i + 1]));
        lemma_child_step_commutes(g, known, (depth - 1) as nat);
        vstd::set::fold::lemma_fold_empty(z, step);
        vstd::set::fold::lemma_fold_insert(Set::<VertexID>::empty(), z, step, next);
        assert(Set::<VertexID>::empty().insert(next) == set![next]);
        let n = ids.len() as int;
        assert(value + (n - (i + 1)) * value == (n - i) * value) by (nonlinear_arith);
        assert(isize::MIN <= (n - i) * value <= isize::MAX) by (nonlinear_arith)
            requires
                isize::MIN <= n * value <= isize::MAX,
                0 < n - i <= n,
        ;
        assert(step(z, next) == Some((n - i) * value));
        assert(v.local().spec_children().fold(z, step) == Some((n - i) * value));
        assert(local_sum(g, known, v, depth) == Some((n - i) * value));
    }
}

/// Along a chain of resident vertices that each hold `value`, the sum
/// from the first one is the chain's length times `value`.
pub proof fn lemma_chain_sum(
    g: Map<VertexID, Vertex<isize>>,
    known: Map<VertexID, isize>,
    ids: Seq<VertexID>,
    value: isize,
    depth: nat,
)
    requires
        is_chain(g, ids, value),
        depth >= ids.len(),
        isize::MIN <= ids.len() * value <= isize::MAX,
    ensures
        dispatch_sum(g, known, g[ids[0]], depth) == Some(ids.len() * value),
        local_sum(g, known, g[ids[0]], depth) == Some(ids.len() * value),
{
    lemma_chain_suffix_sum(g, known, ids, value, 0, depth);
    assert(g.contains_key(ids[0]));
}

/// Two vertices that agree on identifier, kind, adjacency below them,
/// payload and, for a remote one, owner.
pub open spec fn same_shape(a: Vertex<isize>, b: Vertex<isize>) -> bool {
    &&& a.id == b.id
    &&& a.spec_kind() == b.spec_kind()
    &&& a.is_resident() ==> a.local().spec_children() == b.local().spec_children()
        && a.local().spec_data() == b.local().spec_data()
    &&& a.spec_remote_location() == b.spec_remote_location()
}

/// Two graphs with the same vertex identifiers, each pair of vertices of
/// the same shape.
pub open spec fn same_graph(g1: Map<VertexID, Vertex<isize>>, g2: Map<VertexID, Vertex<isize>>) -> bool {
    &&& g1.dom() == g2.dom()
    &&& forall|k: VertexID| g1.contains_key(k) ==> same_shape(#[trigger] g1[k], g2[k])
}

proof fn lemma_same_shape_same_sum(
    g1: Map<VertexID, Vertex<isize>>,
    g2: Map<VertexID, Vertex<isize>>,
    known: Map<VertexID, isize>,
    a: Vertex<isize>,
    b: Vertex<isize>,
    depth: nat,
)
    requires
        same_graph(g1, g2),
        same_shape(a, b),
    ensures
        dispatch_sum(g1, known, a, depth) == dispatch_sum(g2, known, b, depth),
    decreases depth,
{
    if depth > 0 && a.is_resident() {
        let f1 = child_step(g1, known, (depth - 1) as nat);
        let f2 = child_step(g2, known, (depth - 1) as nat);
        assert forall|acc: Option<int>, c: VertexID| #[trigger] f1(acc, c) == f2(acc, c) by {
            if g1.contains_key(c) {
                assert(g2.contains_key(c));
                lemma_same_shape_same_sum(g1, g2, known, g1[c], g2[c], (depth - 1) as nat);
            } else {
                assert(!g2.contains_key(c));
            }
        }
        assert(f1 == f2);
    }
}

/// The sum depends on the topology, the payloads and the remote results
/// alone: two graphs that agree on them give the same sum from the same
/// vertex.
pub proof fn lemma_sum_is_deterministic(
    g1: Map<VertexID, Vertex<isize>>,
    g2: Map<VertexID, Vertex<isize>>,
    known: Map<VertexID, isize>,
    root: VertexID,
)
    requires
        same_graph(g1, g2),
        g1.contains_key(root),
    ensures
        g1.len() == g2.len(),
        dispatch_sum(g1, known, g1[root], g1.len()) == dispatch_sum(
            g2,
            known,
            g2[root],
            g2.len(),
        ),
{
    assert(g1.dom() == g2.dom());
    lemma_same_shape_same_sum(g1, g2, known, g1[root], g2[root], g1.len());
}

} // verus!
