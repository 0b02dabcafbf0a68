use vstd::prelude::*;
use vstd::set_lib::{lemma_len_subset, lemma_set_subset_finite};

use crate::graph::{
    lemma_closed_set_holds_reachable, lemma_reachable_reflexive, lemma_reachable_step, reachable,
    reachable_set, EvolutionOperator, Vertex, VertexCursor, VertexSet,
};
use crate::set::BasicSet;

verus! {

/// The number of vertices that the cursors of an exploration stack have yet
/// to yield, plus one for each frame.
spec fn pending_work<V: View, C: VertexCursor<V>>(stack: Seq<C>) -> nat
    decreases stack.len(),
{
    if stack.len() == 0 {
        0
    } else {
        pending_work::<V, C>(stack.drop_last()) + stack.last().remaining().len() + 1
    }
}

/// Algorithms over a graph `G` with vertices `V`, written once against the
/// evolution operator and the vertex-set contracts.
pub trait GraphAlgorithms<G, V> where V: Vertex, G: EvolutionOperator<V> {
    /// The vertex set in which results are collected.
    type ResultSet: VertexSet<V>;

    /// A new, empty vertex set suited to `graph`.
    fn new_vertex_set(graph: &G) -> (r: Self::ResultSet)
        ensures
            r.well_formed(),
            r.members() == Set::<V::V>::empty(),
    ;

    /// The set of vertices reachable from `source` in zero or more steps,
    /// found by an iterative depth-first search over a stack of cursors.
    ///
    /// The search terminates when the reachable set is finite.
    fn reachable_states(graph: &G, source: &V) -> (r: Self::ResultSet)
        requires
            reachable_set::<V, G>(*graph, source@).finite(),
        ensures
            r.well_formed(),
            r.members() == reachable_set::<V, G>(*graph, source@),
            r.members().contains(source@),
            forall|v: V::V, w: V::V|
                r.members().contains(v) && #[trigger] graph.successors(v).contains(w)
                    ==> r.members().contains(w),
            forall|v: V::V| #[trigger]
                r.members().contains(v) ==> reachable::<V, G>(*graph, source@, v),
    {
        let ghost reach = reachable_set::<V, G>(*graph, source@);
        let mut stack: Vec<G::SuccessorCursor> = Vec::new();
        let mut result = Self::new_vertex_set(graph);
        stack.push(graph.next_step(source));
        let ghost mut frames: Seq<V::V> = seq![source@];
        proof {
            lemma_reachable_reflexive::<V, G>(*graph, source@);
        }
        result.insert(source.duplicate());
        assert(frames[0] == source@);
        proof {
            lemma_set_subset_finite(reach, result.members());
            lemma_len_subset(result.members(), reach);
        }
        while stack.len() > 0
            invariant
                result.well_formed(),
                reach == reachable_set::<V, G>(*graph, source@),
                reach.finite(),
                result.members() <= reach,
                result.members().finite(),
                result.members().len() <= reach.len(),
                result.members().contains(source@),
                stack@.len() == frames.len(),
                forall|i: int| 0 <= i < frames.len() ==> result.members().contains(#[trigger] frames[i]),
                forall|i: int| 0 <= i < frames.len() ==>
                    #[trigger] stack@[i].remaining().to_set() <= graph.successors(frames[i]),
                forall|i: int, w: V::V|
                    0 <= i < frames.len() && #[trigger] graph.successors(frames[i]).contains(w)
                        ==> result.members().contains(w) || stack@[i].remaining().contains(w),
                forall|v: V::V, w: V::V|
                    result.members().contains(v) && !frames.contains(v)
                        && #[trigger] graph.successors(v).contains(w)
                        ==> result.members().contains(w),
            decreases reach.len() - result.members().len(), pending_work::<V, G::SuccessorCursor>(stack@),
        {
            let ghost old_stack = stack@;
            let ghost old_members = result.members();
            let ghost top = frames.last();
            let ghost old_frames = frames;
            let mut cursor = stack.pop().unwrap();
            assert(old_stack.drop_last() =~= stack@);
            let ghost old_remaining = cursor.remaining();
            let ghost n = frames.len() - 1;
            assert(old_stack[n] == cursor);
            assert(old_remaining.to_set() <= graph.successors(top));
            match cursor.next() {
                Some(t) => {
                    stack.push(cursor);
                    assert(old_remaining.contains(t@)) by {
                        assert(old_remaining[0] == t@);
                    }
                    assert(old_remaining.to_set().contains(t@));
                    assert(graph.successors(top).contains(t@));
                    assert(pending_work::<V, G::SuccessorCursor>(stack@) < pending_work::<V, G::SuccessorCursor>(old_stack)) by {
                        assert(stack@.drop_last() =~= old_stack.drop_last());
                    }
                    assert forall|w: V::V| #[trigger] old_remaining.drop_first().contains(w) implies old_remaining.contains(w) by {
                        let k = choose|k: int| 0 <= k < old_remaining.drop_first().len() && old_remaining.drop_first()[k] == w;
                        assert(old_remaining[k + 1] == w);
                    }
                    assert forall|w: V::V| old_remaining.contains(w) && w != t@ implies #[trigger] old_remaining.drop_first().contains(w) by {
                        let k = choose|k: int| 0 <= k < old_remaining.len() && old_remaining[k] == w;
                        assert(k != 0);
                        assert(old_remaining.drop_first()[k - 1] == w);
                    }
                    assert(stack@[n].remaining().to_set() <= old_remaining.to_set());
                    assert(forall|i: int| 0 <= i < n ==> stack@[i] == old_stack[i]);
                    if !result.contains(&t) {
                        proof {
                            lemma_reachable_step::<V, G>(*graph, source@, top, t@);
                        }
                        let ghost pushed = stack@;
                        stack.push(graph.next_step(&t));
                        proof {
                            frames = frames.push(t@);
                        }
                        result.insert(t);
                        assert(stack@.drop_last() =~= pushed);
                        assert(forall|i: int| 0 <= i < n ==> stack@[i] == old_stack[i]);
                        assert(frames[n + 1] == t@);
                        assert(result.members().len() == old_members.len() + 1);
                        assert forall|v: V::V, w: V::V|
                            result.members().contains(v) && !frames.contains(v)
                                && #[trigger] graph.successors(v).contains(w)
                                implies result.members().contains(w) by {
                            assert(v != t@);
                            if old_frames.contains(v) {
                                let k = choose|k: int| 0 <= k < old_frames.len() && old_frames[k] == v;
                                assert(frames[k] == v);
                            }
                        }
                        assert(stack@[n + 1].remaining().to_set() == graph.successors(frames[n + 1]));
                        assert forall|i: int, w: V::V|
                            0 <= i < frames.len() && #[trigger] graph.successors(frames[i]).contains(w)
                            implies result.members().contains(w) || stack@[i].remaining().contains(w) by {
                            if i == frames.len() - 1 {
                                assert(stack@[i].remaining().to_set().contains(w));
                            }
                        }
                    }
                },
                None => {
                    proof {
                        frames = frames.drop_last();
                    }
                    assert(pending_work::<V, G::SuccessorCursor>(stack@) < pending_work::<V, G::SuccessorCursor>(old_stack));
                    assert forall|v: V::V, w: V::V|
                        result.members().contains(v) && !frames.contains(v)
                            && #[trigger] graph.successors(v).contains(w)
                            implies result.members().contains(w) by {
                        if v == top {
                            assert(!old_remaining.contains(w));
                        } else {
                            assert(forall|i: int| 0 <= i < frames.len() ==> frames[i] == old_frames[i]);
                        }
                    }
                },
            }
            proof {
                lemma_set_subset_finite(reach, result.members());
                lemma_len_subset(result.members(), reach);
            }
        }
        proof {
            lemma_closed_set_holds_reachable::<V, G>(*graph, source@, result.members());
            assert(result.members() =~= reach);
        }
        result
    }
}

} // verus!
