//! Breadth-first traversal, and the reachability notions its contract is
//! stated in.

use vstd::prelude::*;
use vstd::set_lib::lemma_len_subset;

use crate::errors::GraphError;
use crate::graph::{DefaultGraphIdType, Graph, GraphView};

use std::collections::VecDeque;

verus! {

/// One step of adjacency between live vertices: dangling records do not step.
pub open spec fn spec_step<VT, ET>(
    g: GraphView<VT, ET>,
    a: DefaultGraphIdType,
    b: DefaultGraphIdType,
) -> bool {
    g.contains_id(a) && g.contains_id(b) && g.targets(a).contains(b)
}

/// A walk along live adjacency records, given as the visited identifiers.
pub open spec fn is_path<VT, ET>(g: GraphView<VT, ET>, p: Seq<DefaultGraphIdType>) -> bool {
    &&& p.len() > 0
    &&& g.contains_id(p[0])
    &&& forall|k: int| #![trigger p[k]] 0 <= k < p.len() - 1 ==> spec_step(g, p[k], p[k + 1])
}

/// Connectivity: some walk leads from `s` to `t`. Every present vertex
/// reaches itself.
pub open spec fn spec_reaches<VT, ET>(
    g: GraphView<VT, ET>,
    s: DefaultGraphIdType,
    t: DefaultGraphIdType,
) -> bool {
    exists|p: Seq<DefaultGraphIdType>| is_path(g, p) && p.first() == s && p.last() == t
}

/// The identifiers of `l` whose vertices are present, in order: the "resolved"
/// targets that traversal follows and reports.
pub open spec fn filter_live<VT, ET>(
    g: GraphView<VT, ET>,
    l: Seq<DefaultGraphIdType>,
) -> Seq<DefaultGraphIdType>
    decreases l.len(),
{
    if l.len() == 0 {
        Seq::empty()
    } else {
        let rest = filter_live(g, l.drop_last());
        if g.contains_id(l.last()) {
            rest.push(l.last())
        } else {
            rest
        }
    }
}

/// The live neighbours of `id`, in adjacency-list order.
pub open spec fn live_targets<VT, ET>(
    g: GraphView<VT, ET>,
    id: DefaultGraphIdType,
) -> Seq<DefaultGraphIdType> {
    filter_live(g, g.targets(id))
}

/// Which identifiers the live filter keeps.
pub proof fn lemma_filter_live_contains<VT, ET>(g: GraphView<VT, ET>, l: Seq<DefaultGraphIdType>)
    ensures
        forall|x: DefaultGraphIdType|
            #![trigger filter_live(g, l).contains(x)]
            filter_live(g, l).contains(x) <==> l.contains(x) && g.contains_id(x),
    decreases l.len(),
{
    if l.len() == 0 {
    } else {
        lemma_filter_live_contains(g, l.drop_last());
        let fl = filter_live(g, l);
        let rest = filter_live(g, l.drop_last());
        assert forall|x: DefaultGraphIdType| fl.contains(x) implies l.contains(x)
            && g.contains_id(x) by {
            let k = choose|k: int| 0 <= k < fl.len() && fl[k] == x;
            if g.contains_id(l.last()) && k == fl.len() - 1 {
                assert(x == l.last());
                assert(l[l.len() - 1] == x);
                assert(l.contains(x));
            } else {
                assert(rest[k] == x);
                assert(rest.contains(x));
                assert(l.drop_last().contains(x) && g.contains_id(x));
                let m = choose|m: int| 0 <= m < l.drop_last().len() && l.drop_last()[m] == x;
                assert(l[m] == x);
                assert(l.contains(x));
            }
        }
        assert forall|x: DefaultGraphIdType| l.contains(x) && g.contains_id(x) implies fl.contains(
            x,
        ) by {
            let k = choose|k: int| 0 <= k < l.len() && l[k] == x;
            if k == l.len() - 1 {
                assert(fl[fl.len() - 1] == x);
            } else {
                assert(l.drop_last()[k] == x);
                assert(l.drop_last().contains(x));
                assert(rest.contains(x));
                let m = choose|m: int| 0 <= m < rest.len() && rest[m] == x;
                assert(fl[m] == x);
            }
        }
    }
}

/// A present vertex reaches itself, by the one-vertex walk.
pub proof fn lemma_reaches_self<VT, ET>(g: GraphView<VT, ET>, s: DefaultGraphIdType)
    requires
        g.contains_id(s),
    ensures
        spec_reaches(g, s, s),
{
    let p = seq![s];
    assert(is_path(g, p) && p.first() == s && p.last() == s);
}

/// Reachability extends along one live step.
pub proof fn lemma_reaches_step<VT, ET>(
    g: GraphView<VT, ET>,
    s: DefaultGraphIdType,
    a: DefaultGraphIdType,
    b: DefaultGraphIdType,
)
    requires
        spec_reaches(g, s, a),
        spec_step(g, a, b),
    ensures
        spec_reaches(g, s, b),
{
    let p = choose|p: Seq<DefaultGraphIdType>| is_path(g, p) && p.first() == s && p.last() == a;
    let q = p.push(b);
    assert(is_path(g, q)) by {
        assert(forall|k: int| 0 <= k < p.len() ==> q[k] == p[k]);
        assert(q[q.len() - 1] == b);
        assert(spec_step(g, q[q.len() - 2], q[q.len() - 1]));
    }
    assert(q.first() == s && q.last() == b);
}

/// Any walk that starts inside a step-closed collection of identifiers ends
/// inside it. This is what lets a finished traversal claim completeness.
pub proof fn lemma_path_in_closed_set<VT, ET>(
    g: GraphView<VT, ET>,
    p: Seq<DefaultGraphIdType>,
    visited: Seq<DefaultGraphIdType>,
)
    requires
        is_path(g, p),
        visited.contains(p.first()),
        forall|a: DefaultGraphIdType, b: DefaultGraphIdType|
            visited.contains(a) && spec_step(g, a, b) ==> visited.contains(b),
    ensures
        visited.contains(p.last()),
    decreases p.len(),
{
    if p.len() == 1 {
    } else {
        assert(spec_step(g, p[0], p[1]));
        let q = p.drop_first();
        assert(is_path(g, q)) by {
            assert(forall|k: int|
                0 <= k < q.len() - 1 ==> #[trigger] q[k] == p[k + 1] && q[k + 1] == p[k + 2]);
        }
        assert(visited.contains(q.first()));
        lemma_path_in_closed_set(g, q, visited);
        assert(q.last() == p.last());
    }
}

/// Whatever is connected is present: both ends of a walk are live vertices.
pub proof fn lemma_reaches_contains<VT, ET>(
    g: GraphView<VT, ET>,
    s: DefaultGraphIdType,
    t: DefaultGraphIdType,
)
    requires
        spec_reaches(g, s, t),
    ensures
        g.contains_id(s),
        g.contains_id(t),
{
    let p = choose|p: Seq<DefaultGraphIdType>| is_path(g, p) && p.first() == s && p.last() == t;
    if p.len() == 1 {
    } else {
        assert(spec_step(g, p[p.len() - 2], p[p.len() - 1]));
    }
}

/// Distinct identifiers all present in `g` cannot outnumber its vertices.
proof fn lemma_distinct_ids_bound<VT, ET>(g: GraphView<VT, ET>, visited: Seq<DefaultGraphIdType>)
    requires
        visited.no_duplicates(),
        forall|k: int| 0 <= k < visited.len() ==> g.contains_id(#[trigger] visited[k]),
    ensures
        visited.len() <= g.vertices.len(),
{
    broadcast use vstd::seq_lib::seq_to_set_is_finite;

    visited.unique_seq_to_set();
    g.ids().lemma_cardinality_of_set();
    assert forall|x: DefaultGraphIdType| visited.to_set().contains(x) implies
        g.ids().to_set().contains(x) by {
        let k = choose|k: int| 0 <= k < visited.len() && visited[k] == x;
        assert(g.contains_id(visited[k]));
        let i = choose|i: int| 0 <= i < g.vertices.len() && g.vertices[i].id == x;
        assert(g.ids()[i] == x);
        assert(g.ids().contains(x));
    }
    assert(visited.to_set().subset_of(g.ids().to_set()));
    lemma_len_subset(visited.to_set(), g.ids().to_set());
    assert(g.ids().len() == g.vertices.len());
}

/// What one emitted traversal record says: a present vertex, its payload, and
/// all of its resolved neighbours in adjacency order.
pub open spec fn record_matches<VT, ET>(
    g: GraphView<VT, ET>,
    r: (DefaultGraphIdType, Option<&VT>, Vec<DefaultGraphIdType>),
) -> bool {
    &&& g.contains_id(r.0)
    &&& (r.1 is Some <==> g.value_of(r.0) is Some)
    &&& (r.1 is Some ==> r.1->0 == g.value_of(r.0)->0)
    &&& r.2@ == live_targets(g, r.0)
}

/// Everything `bfs` promises of a successful traversal from `start`: the
/// start comes first, no vertex is reported twice, every record is exact,
/// and the reported vertices are exactly those reachable from `start`.
pub open spec fn spec_bfs_ok<VT, ET>(
    g: GraphView<VT, ET>,
    start: DefaultGraphIdType,
    res: Seq<(DefaultGraphIdType, Option<&VT>, Vec<DefaultGraphIdType>)>,
) -> bool {
    &&& res.len() > 0
    &&& res[0].0 == start
    &&& forall|i: int, j: int| 0 <= i < j < res.len() ==> res[i].0 != res[j].0
    &&& forall|i: int| 0 <= i < res.len() ==> record_matches(g, #[trigger] res[i])
    &&& forall|i: int| 0 <= i < res.len() ==> spec_reaches(g, start, (#[trigger] res[i]).0)
    &&& forall|t: DefaultGraphIdType|
        spec_reaches(g, start, t) ==> exists|i: int| 0 <= i < res.len() && (#[trigger] res[
            i
        ]).0 == t
}

/// Linear membership scan for the visited list.
fn id_list_contains(ids: &Vec<DefaultGraphIdType>, x: DefaultGraphIdType) -> (r: bool)
    ensures
        r == ids@.contains(x),
{
    let n = ids.len();
    let mut i: usize = 0;
    while i < n
        invariant
            n == ids@.len(),
            i <= n,
            forall|k: int| 0 <= k < i ==> ids@[k] != x,
        decreases n - i,
    {
        if ids[i] == x {
            assert(ids@[i as int] == x);
            return true;
        }
        i += 1;
    }
    false
}

impl<VT, ET> Graph<VT, ET> {
    /// Queue-based breadth-first traversal from `start_id`. Fails exactly
    /// when `start_id` is absent. Emits one record per reached vertex, in
    /// visitation order; dangling adjacency records are silently skipped.
    pub fn bfs<'a>(&'a self, start_id: DefaultGraphIdType) -> (r: Result<
        Vec<(DefaultGraphIdType, Option<&'a VT>, Vec<DefaultGraphIdType>)>,
        GraphError,
    >)
        requires
            self@.wf(),
        ensures
            r is Ok <==> self@.contains_id(start_id),
            !self@.contains_id(start_id) ==> (r matches Err(e) && e == GraphError::VertexNotFound(
                start_id,
            )),
            r matches Ok(res) ==> spec_bfs_ok(self@, start_id, res@),
    {
        let ghost g = self@;
        if !self.contains_vertex(start_id) {
            return Err(GraphError::VertexNotFound(start_id));
        }
        let mut result: Vec<(DefaultGraphIdType, Option<&'a VT>, Vec<DefaultGraphIdType>)> =
            Vec::new();
        let mut visited: Vec<DefaultGraphIdType> = Vec::new();
        let mut queue: VecDeque<DefaultGraphIdType> = VecDeque::new();
        queue.push_back(start_id);
        proof {
            lemma_reaches_self(g, start_id);
            assert(queue@[0] == start_id);
            assert(queue@.contains(start_id));
        }
        while queue.len() != 0
            invariant
                g == self@,
                g.wf(),
                g.contains_id(start_id),
                result@.len() == visited@.len(),
                forall|k: int| 0 <= k < result@.len() ==> (#[trigger] result@[k]).0 == visited@[k],
                forall|k: int| 0 <= k < result@.len() ==> record_matches(g, #[trigger] result@[k]),
                visited@.no_duplicates(),
                forall|k: int| 0 <= k < visited@.len() ==> g.contains_id(#[trigger] visited@[k]),
                forall|k: int|
                    0 <= k < visited@.len() ==> spec_reaches(g, start_id, #[trigger] visited@[k]),
                forall|k: int|
                    0 <= k < queue@.len() ==> g.contains_id(#[trigger] queue@[k]) && spec_reaches(
                        g,
                        start_id,
                        queue@[k],
                    ),
                visited@.contains(start_id) || queue@.contains(start_id),
                visited@.len() == 0 ==> queue@.len() > 0 && queue@[0] == start_id,
                visited@.len() > 0 ==> visited@[0] == start_id,
                forall|a: DefaultGraphIdType, b: DefaultGraphIdType|
                    #![trigger spec_step(g, a, b)]
                    visited@.contains(a) && spec_step(g, a, b) ==> visited@.contains(b)
                        || queue@.contains(b),
                visited@.len() <= g.vertices.len(),
            decreases g.vertices.len() - visited@.len(), queue@.len(),
        {
            let ghost queue0 = queue@;
            let current_id = match queue.pop_front() {
                Some(id) => id,
                None => {
                    proof {
                        assert(false);
                    }
                    continue ;
                },
            };
            assert(queue0[0] == current_id && queue@ =~= queue0.drop_first());
            if id_list_contains(&visited, current_id) {
                proof {
                    assert forall|a: DefaultGraphIdType, b: DefaultGraphIdType|
                        visited@.contains(a) && spec_step(g, a, b) implies visited@.contains(b)
                        || queue@.contains(b) by {
                        assert(visited@.contains(b) || queue0.contains(b));
                        if !visited@.contains(b) {
                            let k = choose|k: int| 0 <= k < queue0.len() && queue0[k] == b;
                            if k == 0 {
                                assert(b == current_id);
                                assert(visited@.contains(b));
                            } else {
                                assert(queue@[k - 1] == b);
                                assert(queue@.contains(b));
                            }
                        }
                    }
                    if !visited@.contains(start_id) {
                        assert(queue0.contains(start_id));
                        let k = choose|k: int| 0 <= k < queue0.len() && queue0[k] == start_id;
                        assert(k != 0 || visited@.contains(start_id));
                        if k != 0 {
                            assert(queue@[k - 1] == start_id);
                        }
                    }
                }
                continue ;
            }
            let pos = self.find_vertex_position(current_id);
            if let Some(p) = pos {
                proof {
                    g.lemma_vertex_ix_is(current_id, p as int);
                }
                let ghost queue1 = queue@;
                let ghost visited0 = visited@;
                visited.push(current_id);
                let m = self.vertices[p].edge_directions.len();
                let mut neighbour_ids: Vec<DefaultGraphIdType> = Vec::new();
                let mut j: usize = 0;
                proof {
                    assert(g.targets(current_id).take(0) =~= Seq::<DefaultGraphIdType>::empty());
                }
                while j < m
                    invariant
                        g == self@,
                        g.wf(),
                        g.contains_id(current_id),
                        g.vertex_ix(current_id) == p as int,
                        p < self.vertices@.len(),
                        m == g.targets(current_id).len(),
                        m == self.vertices@[p as int].edge_directions@.len(),
                        j <= m,
                        visited@ == visited0.push(current_id),
                        queue@.len() >= queue1.len(),
                        forall|k: int| 0 <= k < queue1.len() ==> queue@[k] == queue1[k],
                        neighbour_ids@ == filter_live(g, g.targets(current_id).take(j as int)),
                        forall|k: int|
                            0 <= k < queue@.len() ==> g.contains_id(#[trigger] queue@[k])
                                && spec_reaches(g, start_id, queue@[k]),
                        spec_reaches(g, start_id, current_id),
                        forall|x: DefaultGraphIdType|
                            filter_live(g, g.targets(current_id).take(j as int)).contains(x)
                                ==> visited@.contains(x) || queue@.contains(x),
                    decreases m - j,
                {
                    let ghost tgs = g.targets(current_id);
                    let ghost q0 = queue@;
                    let ghost nb0 = neighbour_ids@;
                    assert(tgs[j as int] == self.vertices@[p as int].edge_directions@[j as int]@.to);
                    let t = self.vertices[p].edge_directions[j].to_vertex_id;
                    proof {
                        assert(tgs.take(j + 1).drop_last() =~= tgs.take(j as int));
                        assert(tgs.take(j + 1).last() == t);
                    }
                    if self.contains_vertex(t) {
                        neighbour_ids.push(t);
                        proof {
                            assert(neighbour_ids@ =~= filter_live(g, tgs.take(j + 1)));
                            assert(spec_step(g, current_id, t)) by {
                                assert(tgs[j as int] == t);
                                assert(tgs.contains(t));
                            }
                            lemma_reaches_step(g, start_id, current_id, t);
                        }
                        if !id_list_contains(&visited, t) {
                            queue.push_back(t);
                            proof {
                                assert(queue@ =~= q0.push(t));
                                assert forall|x: DefaultGraphIdType|
                                    filter_live(g, tgs.take(j + 1)).contains(x) implies
                                    visited@.contains(x) || queue@.contains(x) by {
                                    if x != t {
                                        assert(filter_live(g, tgs.take(j as int)).contains(x)
                                            || x == t) by {
                                            let fl = filter_live(g, tgs.take(j + 1));
                                            let k = choose|k: int|
                                                0 <= k < fl.len() && fl[k] == x;
                                            if k < fl.len() - 1 {
                                                assert(filter_live(g, tgs.take(j as int))[k] == x);
                                            }
                                        }
                                        if visited@.contains(x) {
                                        } else {
                                            assert(q0.contains(x));
                                            let k = choose|k: int|
                                                0 <= k < q0.len() && q0[k] == x;
                                            assert(queue@[k] == x);
                                        }
                                    } else {
                                        assert(queue@[queue@.len() - 1] == t);
                                    }
                                }
                            }
                        } else {
                            proof {
                                assert forall|x: DefaultGraphIdType|
                                    filter_live(g, tgs.take(j + 1)).contains(x) implies
                                    visited@.contains(x) || queue@.contains(x) by {
                                    if x != t {
                                        let fl = filter_live(g, tgs.take(j + 1));
                                        let k = choose|k: int| 0 <= k < fl.len() && fl[k] == x;
                                        if k < fl.len() - 1 {
                                            assert(filter_live(g, tgs.take(j as int))[k] == x);
                                            assert(filter_live(g, tgs.take(j as int)).contains(x));
                                        }
                                    }
                                }
                            }
                        }
                    } else {
                        proof {
                            assert(neighbour_ids@ =~= filter_live(g, tgs.take(j + 1)));
                            assert forall|x: DefaultGraphIdType|
                                filter_live(g, tgs.take(j + 1)).contains(x) implies
                                visited@.contains(x) || queue@.contains(x) by {
                                let fl = filter_live(g, tgs.take(j + 1));
                                let k = choose|k: int| 0 <= k < fl.len() && fl[k] == x;
                                assert(filter_live(g, tgs.take(j as int))[k] == x);
                                assert(filter_live(g, tgs.take(j as int)).contains(x));
                            }
                        }
                    }
                    j += 1;
                }
                let value_ref = self.vertices[p].value.as_ref();
                result.push((current_id, value_ref, neighbour_ids));
                proof {
                    let tgs = g.targets(current_id);
                    assert(tgs.take(m as int) =~= tgs);
                    assert(g.vertices[p as int] == self.vertices@[p as int]@);
                    let rec = (current_id, value_ref, neighbour_ids);
                    assert(record_matches(g, rec)) by {
                        assert(g.value_of(current_id) == g.vertices[p as int].value);
                    }
                    assert(visited@.no_duplicates()) by {
                        assert forall|a: int, b: int|
                            0 <= a < visited@.len() && 0 <= b < visited@.len() && a != b implies
                            visited@[a] != visited@[b] by {
                            if a < visited0.len() && b < visited0.len() {
                            } else if a < visited0.len() {
                                assert(visited@[b] == current_id);
                                if visited0[a] == current_id {
                                    assert(visited0.contains(current_id));
                                }
                            } else {
                                assert(visited@[a] == current_id);
                                if visited0[b] == current_id {
                                    assert(visited0.contains(current_id));
                                }
                            }
                        }
                    }
                    assert forall|k: int| 0 <= k < visited@.len() implies g.contains_id(
                        #[trigger] visited@[k],
                    ) && spec_reaches(g, start_id, visited@[k]) by {
                        if k < visited0.len() {
                            assert(visited@[k] == visited0[k]);
                        } else {
                            assert(visited@[k] == current_id);
                        }
                    }
                    lemma_distinct_ids_bound(g, visited@);
                    assert forall|a: DefaultGraphIdType, b: DefaultGraphIdType|
                        visited@.contains(a) && spec_step(g, a, b) implies visited@.contains(b)
                        || queue@.contains(b) by {
                        if a == current_id {
                            assert(tgs.contains(b) && g.contains_id(b));
                            lemma_filter_live_contains(g, tgs);
                            assert(filter_live(g, tgs).contains(b));
                            assert(filter_live(g, tgs.take(m as int)).contains(b));
                        } else {
                            assert(visited0.contains(a)) by {
                                let k = choose|k: int|
                                    0 <= k < visited@.len() && visited@[k] == a;
                                assert(k < visited0.len());
                                assert(visited0[k] == a);
                            }
                            assert(visited0.contains(b) || queue0.contains(b));
                            if visited0.contains(b) {
                                let k = choose|k: int|
                                    0 <= k < visited0.len() && visited0[k] == b;
                                assert(visited@[k] == b);
                                assert(visited@.contains(b));
                            } else {
                                let k = choose|k: int| 0 <= k < queue0.len() && queue0[k] == b;
                                if k == 0 {
                                    assert(b == current_id);
                                    assert(visited@[visited0.len() as int] == b);
                                    assert(visited@.contains(b));
                                } else {
                                    assert(queue1[k - 1] == b);
                                    assert(queue@[k - 1] == b);
                                    assert(queue@.contains(b));
                                }
                            }
                        }
                    }
                    if visited0.len() == 0 {
                        assert(current_id == start_id);
                        assert(visited@[0] == start_id);
                    } else {
                        assert(visited@[0] == visited0[0]);
                        assert(visited@[0] == start_id);
                    }
                    assert(visited@.contains(start_id)) by {
                        assert(visited@[0] == start_id);
                    }
                }
            } else {
                proof {
                    assert(false);
                }
            }
        }
        proof {
            assert(visited@.contains(start_id));
            assert(visited@[0] == start_id) by {
                let k = choose|k: int| 0 <= k < visited@.len() && visited@[k] == start_id;
            }
            assert(result@[0].0 == start_id);
            assert forall|t: DefaultGraphIdType| spec_reaches(g, start_id, t) implies exists|i: int|
                0 <= i < result@.len() && (#[trigger] result@[i]).0 == t by {
                let p = choose|p: Seq<DefaultGraphIdType>|
                    is_path(g, p) && p.first() == start_id && p.last() == t;
                lemma_path_in_closed_set(g, p, visited@);
                let k = choose|k: int| 0 <= k < visited@.len() && visited@[k] == t;
                assert(result@[k].0 == t);
            }
        }
        Ok(result)
    }

    /// Traversal from an arbitrary present vertex (which one is unspecified);
    /// an empty graph yields an empty result rather than a failure.
    pub fn bfs_random_start<'a>(&'a self) -> (r: Result<
        Vec<(DefaultGraphIdType, Option<&'a VT>, Vec<DefaultGraphIdType>)>,
        GraphError,
    >)
        requires
            self@.wf(),
        ensures
            r is Ok,
            self@.vertices.len() == 0 ==> (r matches Ok(res) && res@.len() == 0),
            self@.vertices.len() > 0 ==> (r matches Ok(res) && exists|s: DefaultGraphIdType|
                self@.contains_id(s) && spec_bfs_ok(self@, s, res@)),
    {
        if self.vertices.len() == 0 {
            return Ok(Vec::new());
        }
        let start_id = self.vertices[0].id;
        assert(self@.contains_id(start_id)) by {
            assert(self@.vertices[0].id == start_id);
        }
        match self.bfs(start_id) {
            Ok(res) => Ok(res),
            Err(e) => {
                proof {
                    assert(false);
                }
                Err(e)
            },
        }
    }
}

} // verus!
