use vstd::hash_map::StringHashMap;
use vstd::hash_set::StringHashSet;
use vstd::prelude::*;
use vstd::set_lib::lemma_set_subset_finite;

use crate::algorithms::GraphAlgorithms;
use crate::graph::{
    is_path, reachable_set, EvolutionOperator, InverseEvolutionOperator, VertexCursor, VertexSet,
};
use crate::set::BasicSet;

verus! {

/// The views of the strings of `list`, in order.
pub open spec fn names_of(list: Seq<String>) -> Seq<Seq<char>> {
    list.map_values(|s: String| s@)
}

/// A set of string vertices held in a hash set.
pub struct HashVertexSet {
    set: StringHashSet,
}

impl HashVertexSet {
    /// An empty set.
    pub fn new() -> (r: HashVertexSet)
        ensures
            r.well_formed(),
            r.members() == Set::<Seq<char>>::empty(),
    {
        HashVertexSet { set: StringHashSet::new() }
    }
}

impl BasicSet<String> for HashVertexSet {
    closed spec fn members(&self) -> Set<Seq<char>> {
        self.set@
    }

    open spec fn well_formed(&self) -> bool {
        true
    }

    fn is_empty(&self) -> (r: bool) {
        self.set.is_empty()
    }

    fn contains(&self, item: &String) -> (r: bool) {
        self.set.contains(item.as_str())
    }

    fn insert(&mut self, item: String) -> (r: bool) {
        self.set.insert(item)
    }
}

impl VertexSet<String> for HashVertexSet {

}

/// A cursor over a list of string vertices that were copied out of a graph.
pub struct VertexList {
    /// The vertices still to be yielded, the next one last.
    rest: Vec<String>,
}

impl VertexList {
    /// A cursor that yields the elements of `list` in order.
    pub fn new(list: &Vec<String>) -> (r: VertexList)
        ensures
            r.remaining() == names_of(list@),
    {
        let mut rest: Vec<String> = Vec::new();
        let mut i: usize = list.len();
        while i > 0
            invariant
                i <= list.len(),
                rest@.len() == list.len() - i,
                forall|j: int| 0 <= j < rest@.len() ==> #[trigger] rest@[j]@ == list@[list.len() - 1 - j]@,
            decreases i,
        {
            i = i - 1;
            rest.push(list[i].clone());
        }
        let r = VertexList { rest };
        assert(r.remaining() =~= names_of(list@));
        r
    }
}

impl VertexCursor<String> for VertexList {
    closed spec fn remaining(&self) -> Seq<Seq<char>> {
        Seq::new(self.rest@.len(), |i: int| self.rest@[self.rest@.len() - 1 - i]@)
    }

    fn next(&mut self) -> (r: Option<String>) {
        let r = self.rest.pop();
        if r.is_some() {
            assert(self.remaining() =~= old(self).remaining().drop_first());
        }
        r
    }
}

/// A finite graph over string vertices, stored as lists of successors and
/// predecessors.
pub struct SimpleGraph {
    vertices: StringHashSet,
    successors: StringHashMap<Vec<String>>,
    predecessors: StringHashMap<Vec<String>>,
}

impl SimpleGraph {
    /// The vertices added to the graph.
    pub closed spec fn vertex_names(&self) -> Set<Seq<char>> {
        self.vertices@
    }

    /// The list of successors recorded for each vertex that has one.
    pub closed spec fn successor_lists(&self) -> Map<Seq<char>, Seq<Seq<char>>> {
        self.successors@.map_values(|list: Vec<String>| names_of(list@))
    }

    /// The list of predecessors recorded for each vertex that has one.
    pub closed spec fn predecessor_lists(&self) -> Map<Seq<char>, Seq<Seq<char>>> {
        self.predecessors@.map_values(|list: Vec<String>| names_of(list@))
    }

    /// The successors of `v`, in the order the edges were added.
    pub open spec fn successors_of(&self, v: Seq<char>) -> Seq<Seq<char>> {
        if self.successor_lists().contains_key(v) {
            self.successor_lists()[v]
        } else {
            Seq::empty()
        }
    }

    /// The predecessors of `v`, in the order the edges were added.
    pub open spec fn predecessors_of(&self, v: Seq<char>) -> Seq<Seq<char>> {
        if self.predecessor_lists().contains_key(v) {
            self.predecessor_lists()[v]
        } else {
            Seq::empty()
        }
    }

    /// Finitely many vertices, and every successor is one of them.
    pub open spec fn well_formed(&self) -> bool {
        &&& self.vertex_names().finite()
        &&& forall|v: Seq<char>, t: Seq<char>|
            #[trigger] self.successors_of(v).contains(t) ==> self.vertex_names().contains(t)
    }

    /// A graph with no vertex and no edge.
    pub fn new() -> (r: SimpleGraph)
        ensures
            r.well_formed(),
            r.vertex_names() == Set::<Seq<char>>::empty(),
            r.successor_lists() == Map::<Seq<char>, Seq<Seq<char>>>::empty(),
            r.predecessor_lists() == Map::<Seq<char>, Seq<Seq<char>>>::empty(),
    {
        let r = SimpleGraph {
            vertices: StringHashSet::new(),
            successors: StringHashMap::new(),
            predecessors: StringHashMap::new(),
        };
        assert(r.successor_lists() =~= Map::empty());
        assert(r.predecessor_lists() =~= Map::empty());
        r
    }

    /// Adds `vertex` to the vertices of the graph.
    pub fn add_vertex(&mut self, vertex: String)
        requires
            old(self).well_formed(),
        ensures
            final(self).well_formed(),
            final(self).vertex_names() == old(self).vertex_names().insert(vertex@),
            final(self).successor_lists() == old(self).successor_lists(),
            final(self).predecessor_lists() == old(self).predecessor_lists(),
    {
        self.vertices.insert(vertex);
        assert forall|v: Seq<char>, t: Seq<char>| #[trigger]
            self.successors_of(v).contains(t) implies self.vertex_names().contains(t) by {
            assert(old(self).successors_of(v).contains(t));
        }
    }

    /// Adds the edge `from -> to`, and both of its ends as vertices. The edge
    /// is appended to the successors of `from` and to the predecessors of `to`.
    pub fn add_edge(&mut self, from: String, to: String)
        requires
            old(self).well_formed(),
        ensures
            final(self).well_formed(),
            final(self).vertex_names() == old(self).vertex_names().insert(from@).insert(to@),
            final(self).successor_lists() == old(self).successor_lists().insert(
                from@,
                old(self).successors_of(from@).push(to@),
            ),
            final(self).predecessor_lists() == old(self).predecessor_lists().insert(
                to@,
                old(self).predecessors_of(to@).push(from@),
            ),
    {
        let mut succ: Vec<String> = copy_list(self.successors.get(from.as_str()));
        succ.push(to.clone());
        let mut pred: Vec<String> = copy_list(self.predecessors.get(to.as_str()));
        pred.push(from.clone());
        self.vertices.insert(from.clone());
        self.vertices.insert(to.clone());
        self.successors.insert(from, succ);
        self.predecessors.insert(to, pred);
        assert(names_of(succ@) =~= old(self).successors_of(from@).push(to@));
        assert(names_of(pred@) =~= old(self).predecessors_of(to@).push(from@));
        assert(self.successor_lists() =~= old(self).successor_lists().insert(
            from@,
            old(self).successors_of(from@).push(to@),
        ));
        assert(self.predecessor_lists() =~= old(self).predecessor_lists().insert(
            to@,
            old(self).predecessors_of(to@).push(from@),
        ));
        assert forall|v: Seq<char>, t: Seq<char>| #[trigger]
            self.successors_of(v).contains(t) implies self.vertex_names().contains(t) by {
            if v == from@ {
                if t != to@ {
                    let k = choose|k: int| 0 <= k < self.successors_of(v).len() && self.successors_of(v)[k] == t;
                    assert(old(self).successors_of(v)[k] == t);
                    assert(old(self).successors_of(v).contains(t));
                }
            } else {
                assert(old(self).successors_of(v).contains(t));
            }
        }
    }

    /// Returns true if `vertex` was added to the graph.
    pub fn has_vertex(&self, vertex: &str) -> (r: bool)
        ensures
            r == self.vertex_names().contains(vertex@),
    {
        self.vertices.contains(vertex)
    }
}

/// A copy of the list found in a map, or an empty list where none was.
fn copy_list(found: Option<&Vec<String>>) -> (r: Vec<String>)
    ensures
        names_of(r@) == match found {
            Some(list) => names_of(list@),
            None => Seq::empty(),
        },
{
    let mut r: Vec<String> = Vec::new();
    match found {
        Some(list) => {
            let mut i: usize = 0;
            while i < list.len()
                invariant
                    i <= list.len(),
                    r@.len() == i,
                    forall|j: int| 0 <= j < i ==> #[trigger] r@[j]@ == list@[j]@,
                decreases list.len() - i,
            {
                let item = list[i].clone();
                assert(item == list@[i as int]);
                r.push(item);
                i = i + 1;
            }
            assert(names_of(r@) =~= names_of(list@));
        },
        None => {
            assert(names_of(r@) =~= Seq::empty());
        },
    }
    r
}

impl EvolutionOperator<String> for SimpleGraph {
    type SuccessorCursor = VertexList;

    open spec fn successors(&self, v: Seq<char>) -> Set<Seq<char>> {
        self.successors_of(v).to_set()
    }

    /// A vertex without recorded successors, known to the graph or not, has
    /// none.
    fn next_step(&self, source: &String) -> (r: VertexList)
        ensures
            r.remaining() == self.successors_of(source@),
    {
        let list = copy_list(self.successors.get(source.as_str()));
        VertexList::new(&list)
    }
}

impl InverseEvolutionOperator<String> for SimpleGraph {
    type PredecessorCursor = VertexList;

    open spec fn predecessors(&self, v: Seq<char>) -> Set<Seq<char>> {
        self.predecessors_of(v).to_set()
    }

    /// A vertex without recorded predecessors, known to the graph or not, has
    /// none.
    fn prev_step(&self, source: &String) -> (r: VertexList)
        ensures
            r.remaining() == self.predecessors_of(source@),
    {
        let list = copy_list(self.predecessors.get(source.as_str()));
        VertexList::new(&list)
    }
}

/// In a well-formed graph every vertex reaches finitely many vertices, so a
/// search from any source terminates.
pub proof fn lemma_reachable_set_finite(graph: SimpleGraph, source: Seq<char>)
    requires
        graph.well_formed(),
    ensures
        reachable_set::<String, SimpleGraph>(graph, source).finite(),
{
    let bound = graph.vertex_names().insert(source);
    let reach = reachable_set::<String, SimpleGraph>(graph, source);
    assert forall|t: Seq<char>| reach.contains(t) implies bound.contains(t) by {
        let path = choose|path: Seq<Seq<char>>|
            #[trigger] is_path::<String, SimpleGraph>(graph, path) && path[0] == source
                && path.last() == t;
        if path.len() > 1 {
            let j = path.len() - 2;
            assert(graph.successors(path[j]).contains(path[j + 1]));
            assert(graph.successors_of(path[j]).contains(path[j + 1]));
        }
    }
    lemma_set_subset_finite(bound, reach);
}

/// The algorithms of the library on a `SimpleGraph`, collecting vertices in a
/// `HashVertexSet`.
pub struct SimpleGraphAlgorithms;

impl GraphAlgorithms<SimpleGraph, String> for SimpleGraphAlgorithms {
    type ResultSet = HashVertexSet;

    fn new_vertex_set(_graph: &SimpleGraph) -> (r: HashVertexSet) {
        HashVertexSet::new()
    }
}

} // verus!
