use std::hash::Hash;
use vstd::prelude::*;

use crate::set::BasicSet;

verus! {

/// A value that can stand for a vertex of a graph: comparable, duplicable and
/// hashable. Its identity is its view.
pub trait Vertex: Eq + Clone + Hash + View + Sized {
    /// A copy of the vertex, with the same view. (`Clone` alone promises
    /// nothing of the copy it makes.)
    fn duplicate(&self) -> (r: Self)
        ensures
            r@ == self@,
    ;
}

/// A set of vertices: the visited set of an exploration.
pub trait VertexSet<V: Vertex>: BasicSet<V> {

}

/// A forward-only cursor over a finite sequence of vertices.
pub trait VertexCursor<V: View> {
    /// The views of the vertices that the cursor has yet to yield, in order.
    spec fn remaining(&self) -> Seq<V::V>;

    /// Yields the next vertex, or `None` once the sequence is exhausted.
    fn next(&mut self) -> (r: Option<V>)
        ensures
            match r {
                Some(v) => {
                    &&& old(self).remaining().len() > 0
                    &&& v@ == old(self).remaining()[0]
                    &&& final(self).remaining() == old(self).remaining().drop_first()
                },
                None => {
                    &&& old(self).remaining().len() == 0
                    &&& final(self).remaining() == old(self).remaining()
                },
            },
    ;
}

/// The forward edges of a graph that is explored rather than enumerated: the
/// successors of a vertex are produced on demand.
///
/// Queried twice on the same vertex, the operator yields the same successors,
/// possibly in another order: they are a function of the graph and the vertex.
pub trait EvolutionOperator<V: Vertex> {
    /// The cursor over the successors of one vertex.
    type SuccessorCursor: VertexCursor<V>;

    /// The views of the direct successors of the vertex with view `v`.
    spec fn successors(&self, v: V::V) -> Set<V::V>;

    /// A cursor that yields exactly the successors of `source`, in some order
    /// and possibly with repetitions.
    fn next_step(&self, source: &V) -> (r: Self::SuccessorCursor)
        ensures
            r.remaining().to_set() == self.successors(source@),
    ;
}

/// The backward edges of a graph: the predecessors of a vertex, produced on
/// demand.
pub trait InverseEvolutionOperator<V: Vertex> {
    /// The cursor over the predecessors of one vertex.
    type PredecessorCursor: VertexCursor<V>;

    /// The views of the direct predecessors of the vertex with view `v`.
    spec fn predecessors(&self, v: V::V) -> Set<V::V>;

    /// A cursor that yields exactly the predecessors of `source`, in some
    /// order and possibly with repetitions.
    fn prev_step(&self, source: &V) -> (r: Self::PredecessorCursor)
        ensures
            r.remaining().to_set() == self.predecessors(source@),
    ;
}

/// A non-empty sequence of vertices in which each one is a successor of the
/// one before it.
pub open spec fn is_path<V: Vertex, G: EvolutionOperator<V>>(graph: G, path: Seq<V::V>) -> bool {
    &&& path.len() > 0
    &&& forall|i: int|
        0 <= i < path.len() - 1 ==> #[trigger] graph.successors(path[i]).contains(path[i + 1])
}

/// `target` is reached from `source` in zero or more steps.
pub open spec fn reachable<V: Vertex, G: EvolutionOperator<V>>(
    graph: G,
    source: V::V,
    target: V::V,
) -> bool {
    exists|path: Seq<V::V>|
        #[trigger] is_path::<V, G>(graph, path) && path[0] == source && path.last() == target
}

/// All the vertices reached from `source`, `source` included.
pub open spec fn reachable_set<V: Vertex, G: EvolutionOperator<V>>(graph: G, source: V::V) -> Set<
    V::V,
> {
    Set::new(|target: V::V| reachable::<V, G>(graph, source, target))
}

/// Every vertex reaches itself, in zero steps.
pub proof fn lemma_reachable_reflexive<V: Vertex, G: EvolutionOperator<V>>(graph: G, source: V::V)
    ensures
        reachable::<V, G>(graph, source, source),
{
    let path = seq![source];
    assert(is_path::<V, G>(graph, path));
}

/// A successor of a reached vertex is reached too.
pub proof fn lemma_reachable_step<V: Vertex, G: EvolutionOperator<V>>(
    graph: G,
    source: V::V,
    v: V::V,
    w: V::V,
)
    requires
        reachable::<V, G>(graph, source, v),
        graph.successors(v).contains(w),
    ensures
        reachable::<V, G>(graph, source, w),
{
    let path = choose|path: Seq<V::V>|
        #[trigger] is_path::<V, G>(graph, path) && path[0] == source && path.last() == v;
    let longer = path.push(w);
    assert forall|i: int| 0 <= i < longer.len() - 1 implies #[trigger] graph.successors(
        longer[i],
    ).contains(longer[i + 1]) by {
        if i < path.len() - 1 {
            assert(longer[i] == path[i] && longer[i + 1] == path[i + 1]);
        }
    }
    assert(is_path::<V, G>(graph, longer));
    assert(longer[0] == source && longer.last() == w);
}

/// Every graph: the vertices reached from `source` include `source` itself.
pub proof fn lemma_reachable_set_contains_source<V: Vertex, G: EvolutionOperator<V>>(
    graph: G,
    source: V::V,
)
    ensures
        reachable_set::<V, G>(graph, source).contains(source),
{
    lemma_reachable_reflexive::<V, G>(graph, source);
}

/// Every graph: the vertices reached from `source` are closed under one
/// step of the evolution operator.
pub proof fn lemma_reachable_set_closed<V: Vertex, G: EvolutionOperator<V>>(
    graph: G,
    source: V::V,
)
    ensures
        forall|v: V::V, w: V::V|
            reachable_set::<V, G>(graph, source).contains(v) && #[trigger] graph.successors(
                v,
            ).contains(w) ==> reachable_set::<V, G>(graph, source).contains(w),
{
    assert forall|v: V::V, w: V::V|
        reachable_set::<V, G>(graph, source).contains(v) && #[trigger] graph.successors(
            v,
        ).contains(w) implies reachable_set::<V, G>(graph, source).contains(w) by {
        lemma_reachable_step::<V, G>(graph, source, v, w);
    }
}

/// Every graph: each vertex reached from `source` is the end of a path of
/// successor steps that starts at `source`; nothing else is included.
pub proof fn lemma_reachable_set_has_paths<V: Vertex, G: EvolutionOperator<V>>(
    graph: G,
    source: V::V,
)
    ensures
        forall|v: V::V| #[trigger]
            reachable_set::<V, G>(graph, source).contains(v) ==> exists|path: Seq<V::V>|
                #[trigger] is_path::<V, G>(graph, path) && path[0] == source && path.last() == v,
{
}

/// A set that holds `source` and is closed under successors holds every
/// vertex that `source` reaches.
pub proof fn lemma_closed_set_holds_reachable<V: Vertex, G: EvolutionOperator<V>>(
    graph: G,
    source: V::V,
    members: Set<V::V>,
)
    requires
        members.contains(source),
        forall|v: V::V, w: V::V|
            members.contains(v) && #[trigger] graph.successors(v).contains(w) ==> members.contains(
                w,
            ),
    ensures
        reachable_set::<V, G>(graph, source) <= members,
{
    assert forall|t: V::V| #[trigger] reachable_set::<V, G>(graph, source).contains(t) implies members.contains(t) by {
        let path = choose|path: Seq<V::V>|
            #[trigger] is_path::<V, G>(graph, path) && path[0] == source && path.last() == t;
        lemma_path_stays_in::<V, G>(graph, path, members, path.len() - 1);
    }
}

proof fn lemma_path_stays_in<V: Vertex, G: EvolutionOperator<V>>(
    graph: G,
    path: Seq<V::V>,
    members: Set<V::V>,
    k: int,
)
    requires
        is_path::<V, G>(graph, path),
        members.contains(path[0]),
        forall|v: V::V, w: V::V|
            members.contains(v) && #[trigger] graph.successors(v).contains(w) ==> members.contains(
                w,
            ),
        0 <= k < path.len(),
    ensures
        members.contains(path[k]),
    decreases k,
{
    if k > 0 {
        let j = k - 1;
        lemma_path_stays_in::<V, G>(graph, path, members, j);
        assert(graph.successors(path[j]).contains(path[j + 1]));
    }
}

impl Vertex for String {
    fn duplicate(&self) -> (r: String) {
        self.clone()
    }
}

} // verus!
