//! The graph container: adjacency-list representation and the mutation API.
//!
//! A `Graph` maps vertex identifiers to vertices; each vertex keeps an ordered
//! list of outgoing `EdgeDirection` records. An undirected edge is stored as a
//! `Strong` record plus an automatically mirrored `Weak` record, both holding
//! one shared payload behind an `Rc`.

use std::rc::Rc;
use vstd::prelude::*;

use crate::errors::GraphError;

verus! {

/// The identifier type every vertex is keyed by.
pub type DefaultGraphIdType = u32;

/// Whether a graph's edges are one-way or mirrored.
#[derive(Debug)]
pub enum GraphType {
    Directed,
    Undirected,
}

/// `Strong` marks a genuine edge; `Weak` marks the mirror half that an
/// undirected graph keeps so that both endpoints' adjacency lists agree.
/// Only `Strong` records are written on serialization.
#[derive(Debug)]
pub enum EdgeDirectionType {
    Strong,
    Weak,
}

/// One directed adjacency record: the unit actually stored in a vertex's
/// edge list. The payload sits behind an `Rc` so that the two halves of an
/// undirected edge share a single value.
#[derive(Debug)]
pub struct EdgeDirection<ET> {
    pub to_vertex_id: DefaultGraphIdType,
    pub value: Rc<Option<ET>>,
    pub kind: EdgeDirectionType,
}

/// A vertex: identifier, optional payload, and its outgoing edge records in
/// insertion order.
#[derive(Debug)]
pub struct Vertex<VT, ET> {
    pub id: DefaultGraphIdType,
    pub value: Option<VT>,
    pub edge_directions: Vec<EdgeDirection<ET>>,
}

/// The graph container: vertices in insertion order, with unique identifiers,
/// and the mode the graph was created in (immutable afterwards).
#[derive(Debug)]
pub struct Graph<VT, ET> {
    pub vertices: Vec<Vertex<VT, ET>>,
    pub mode: GraphType,
}

/// The mathematical image of one adjacency record.
#[verifier::ext_equal]
pub struct EdgeDirectionView<ET> {
    pub to: DefaultGraphIdType,
    pub value: Option<ET>,
    pub strong: bool,
}

/// The mathematical image of one vertex.
#[verifier::ext_equal]
pub struct VertexView<VT, ET> {
    pub id: DefaultGraphIdType,
    pub value: Option<VT>,
    pub edges: Seq<EdgeDirectionView<ET>>,
}

/// The mathematical image of a whole graph, which every contract speaks of.
#[verifier::ext_equal]
pub struct GraphView<VT, ET> {
    pub mode: GraphType,
    pub vertices: Seq<VertexView<VT, ET>>,
}

impl<ET> View for EdgeDirection<ET> {
    type V = EdgeDirectionView<ET>;

    open spec fn view(&self) -> EdgeDirectionView<ET> {
        EdgeDirectionView { to: self.to_vertex_id, value: *self.value, strong: self.kind is Strong }
    }
}

/// The images of a whole edge list, in order.
pub open spec fn edge_views<ET>(edges: Seq<EdgeDirection<ET>>) -> Seq<EdgeDirectionView<ET>> {
    edges.map_values(|e: EdgeDirection<ET>| e@)
}

impl<VT, ET> View for Vertex<VT, ET> {
    type V = VertexView<VT, ET>;

    open spec fn view(&self) -> VertexView<VT, ET> {
        VertexView { id: self.id, value: self.value, edges: edge_views(self.edge_directions@) }
    }
}

/// The images of a whole vertex sequence, in order.
pub open spec fn vertex_views<VT, ET>(vertices: Seq<Vertex<VT, ET>>) -> Seq<VertexView<VT, ET>> {
    vertices.map_values(|v: Vertex<VT, ET>| v@)
}

impl<VT, ET> View for Graph<VT, ET> {
    type V = GraphView<VT, ET>;

    open spec fn view(&self) -> GraphView<VT, ET> {
        GraphView { mode: self.mode, vertices: vertex_views(self.vertices@) }
    }
}

/// No two records of one edge list aim at the same target; this is what makes
/// duplicate edge insertion a silent no-op rather than a growth.
pub open spec fn unique_targets<ET>(edges: Seq<EdgeDirectionView<ET>>) -> bool {
    forall|i: int, j: int| 0 <= i < j < edges.len() ==> edges[i].to != edges[j].to
}

impl<VT, ET> VertexView<VT, ET> {
    /// Validity of a single vertex: its edge list holds each target at most once.
    pub open spec fn wf(self) -> bool {
        unique_targets(self.edges)
    }
}

impl<VT, ET> GraphView<VT, ET> {
    /// The vertex identifiers, in storage order.
    pub open spec fn ids(self) -> Seq<DefaultGraphIdType> {
        self.vertices.map_values(|v: VertexView<VT, ET>| v.id)
    }

    /// Membership of an identifier.
    pub open spec fn contains_id(self, vertex_id: DefaultGraphIdType) -> bool {
        exists|i: int| 0 <= i < self.vertices.len() && self.vertices[i].id == vertex_id
    }

    /// The storage position of the vertex keyed by `vertex_id` (meaningful
    /// when `contains_id` holds and the graph is well formed).
    pub open spec fn vertex_ix(self, vertex_id: DefaultGraphIdType) -> int {
        choose|i: int| 0 <= i < self.vertices.len() && self.vertices[i].id == vertex_id
    }

    /// The vertex keyed by `vertex_id`.
    pub open spec fn vertex(self, vertex_id: DefaultGraphIdType) -> VertexView<VT, ET> {
        self.vertices[self.vertex_ix(vertex_id)]
    }

    /// The edge records leaving `vertex_id`, in list order.
    pub open spec fn edges_of(self, vertex_id: DefaultGraphIdType) -> Seq<EdgeDirectionView<ET>> {
        self.vertex(vertex_id).edges
    }

    /// The targets of the records leaving `vertex_id`, in list order.
    pub open spec fn targets(self, vertex_id: DefaultGraphIdType) -> Seq<DefaultGraphIdType> {
        self.edges_of(vertex_id).map_values(|e: EdgeDirectionView<ET>| e.to)
    }

    /// The payload of the vertex keyed by `vertex_id`.
    pub open spec fn value_of(self, vertex_id: DefaultGraphIdType) -> Option<VT> {
        self.vertex(vertex_id).value
    }

    /// Validity of the whole container: identifiers are unique keys and every
    /// edge list holds each target at most once.
    pub open spec fn wf(self) -> bool {
        &&& forall|i: int, j: int|
            0 <= i < j < self.vertices.len() ==> self.vertices[i].id != self.vertices[j].id
        &&& forall|i: int| 0 <= i < self.vertices.len() ==> (#[trigger] self.vertices[i]).wf()
    }

    /// The same graph with one more vertex at the end.
    pub open spec fn push_vertex(self, v: VertexView<VT, ET>) -> GraphView<VT, ET> {
        GraphView { mode: self.mode, vertices: self.vertices.push(v) }
    }

    /// The same graph with the edge list of `vertex_id` replaced.
    pub open spec fn with_edges(
        self,
        vertex_id: DefaultGraphIdType,
        edges: Seq<EdgeDirectionView<ET>>,
    ) -> GraphView<VT, ET> {
        let i = self.vertex_ix(vertex_id);
        GraphView {
            mode: self.mode,
            vertices: self.vertices.update(
                i,
                VertexView { id: self.vertices[i].id, value: self.vertices[i].value, edges },
            ),
        }
    }

    /// In a well-formed graph the storage position of a present identifier is
    /// the unique index holding it.
    pub proof fn lemma_vertex_ix_is(self, vertex_id: DefaultGraphIdType, i: int)
        requires
            self.wf(),
            0 <= i < self.vertices.len(),
            self.vertices[i].id == vertex_id,
        ensures
            self.vertex_ix(vertex_id) == i,
            self.contains_id(vertex_id),
    {
        assert(self.contains_id(vertex_id));
        let k = self.vertex_ix(vertex_id);
        if k != i {
            assert(self.vertices[k].id != self.vertices[i].id);
        }
    }
}

/// Whether some record of `edges` already aims at `to`. Records are compared
/// by target alone: payload and kind are irrelevant.
pub open spec fn list_has_target<ET>(edges: Seq<EdgeDirectionView<ET>>, to: DefaultGraphIdType) -> bool {
    exists|i: int| 0 <= i < edges.len() && edges[i].to == to
}

/// The payload behind a record's shared cell.
pub open spec fn shared_value<ET>(value: Rc<Option<ET>>) -> Option<ET> {
    *value
}

/// A record with the given target, payload and kind.
pub open spec fn direction_view<ET>(
    to: DefaultGraphIdType,
    value: Option<ET>,
    strong: bool,
) -> EdgeDirectionView<ET> {
    EdgeDirectionView { to, value, strong }
}

/// Idempotent insertion: the list grows by `e` unless some record already
/// aims at `e.to`, in which case nothing changes.
pub open spec fn insert_direction<ET>(
    edges: Seq<EdgeDirectionView<ET>>,
    e: EdgeDirectionView<ET>,
) -> Seq<EdgeDirectionView<ET>> {
    if list_has_target(edges, e.to) {
        edges
    } else {
        edges.push(e)
    }
}

/// The list with every record aiming at `to` removed, order kept.
pub open spec fn scrub_target<ET>(
    edges: Seq<EdgeDirectionView<ET>>,
    to: DefaultGraphIdType,
) -> Seq<EdgeDirectionView<ET>>
    decreases edges.len(),
{
    if edges.len() == 0 {
        Seq::empty()
    } else {
        let rest = scrub_target(edges.drop_first(), to);
        if edges[0].to == to {
            rest
        } else {
            seq![edges[0]] + rest
        }
    }
}

/// Scrubbing a list that never aims at `to` changes nothing.
pub proof fn lemma_scrub_absent<ET>(edges: Seq<EdgeDirectionView<ET>>, to: DefaultGraphIdType)
    requires
        forall|k: int| 0 <= k < edges.len() ==> edges[k].to != to,
    ensures
        scrub_target(edges, to) == edges,
    decreases edges.len(),
{
    if edges.len() == 0 {
        assert(scrub_target(edges, to) =~= edges);
    } else {
        lemma_scrub_absent(edges.drop_first(), to);
        assert(scrub_target(edges, to) =~= edges);
    }
}

/// When exactly one record aims at `to`, scrubbing removes that record alone.
pub proof fn lemma_scrub_single<ET>(
    edges: Seq<EdgeDirectionView<ET>>,
    to: DefaultGraphIdType,
    i: int,
)
    requires
        0 <= i < edges.len(),
        edges[i].to == to,
        forall|j: int| 0 <= j < edges.len() && j != i ==> edges[j].to != to,
    ensures
        scrub_target(edges, to) == edges.remove(i),
    decreases i,
{
    if i == 0 {
        lemma_scrub_absent(edges.drop_first(), to);
        assert(scrub_target(edges, to) =~= edges.remove(0));
    } else {
        lemma_scrub_single(edges.drop_first(), to, i - 1);
        assert(scrub_target(edges, to) =~= edges.remove(i));
    }
}

/// What scrubbing leaves behind: no record aims at `to` any more, every other
/// target keeps its records, and target-uniqueness survives.
pub proof fn lemma_scrub_props<ET>(edges: Seq<EdgeDirectionView<ET>>, to: DefaultGraphIdType)
    ensures
        forall|k: int|
            0 <= k < scrub_target(edges, to).len() ==> (#[trigger] scrub_target(edges, to)[k]).to
                != to,
        forall|x: DefaultGraphIdType|
            list_has_target(scrub_target(edges, to), x) <==> (list_has_target(edges, x) && x
                != to),
        unique_targets(edges) ==> unique_targets(scrub_target(edges, to)),
    decreases edges.len(),
{
    let s = scrub_target(edges, to);
    if edges.len() == 0 {
    } else {
        let tail = edges.drop_first();
        lemma_scrub_props(tail, to);
        let st = scrub_target(tail, to);
        assert forall|x: DefaultGraphIdType| list_has_target(s, x) implies (list_has_target(
            edges,
            x,
        ) && x != to) by {
            let k = choose|k: int| 0 <= k < s.len() && s[k].to == x;
            if edges[0].to == to {
                assert(list_has_target(tail, x));
                let m = choose|m: int| 0 <= m < tail.len() && tail[m].to == x;
                assert(edges[m + 1].to == x);
            } else {
                if k == 0 {
                    assert(edges[0].to == x);
                } else {
                    assert(st[k - 1].to == x);
                    assert(list_has_target(tail, x));
                    let m = choose|m: int| 0 <= m < tail.len() && tail[m].to == x;
                    assert(edges[m + 1].to == x);
                }
            }
        }
        assert forall|x: DefaultGraphIdType| list_has_target(edges, x) && x != to implies
            list_has_target(s, x) by {
            let k = choose|k: int| 0 <= k < edges.len() && edges[k].to == x;
            if k == 0 {
                assert(s[0].to == x);
            } else {
                assert(tail[k - 1].to == x);
                assert(list_has_target(tail, x));
                assert(list_has_target(st, x));
                let m = choose|m: int| 0 <= m < st.len() && st[m].to == x;
                if edges[0].to == to {
                    assert(s[m].to == x);
                } else {
                    assert(s[m + 1].to == x);
                }
            }
        }
        if unique_targets(edges) {
            assert(unique_targets(tail)) by {
                assert(forall|i: int, j: int|
                    0 <= i < j < tail.len() ==> tail[i] == edges[i + 1] && tail[j] == edges[j + 1]);
            }
            if edges[0].to != to {
                assert forall|i: int, j: int| 0 <= i < j < s.len() implies s[i].to != s[j].to by {
                    if i == 0 {
                        assert(s[j] == st[j - 1]);
                        assert(list_has_target(st, st[j - 1].to));
                        assert(list_has_target(tail, st[j - 1].to));
                        let m = choose|m: int| 0 <= m < tail.len() && tail[m].to == st[j - 1].to;
                        assert(edges[m + 1].to == st[j - 1].to);
                        assert(edges[0].to != edges[m + 1].to);
                    } else {
                        assert(s[i] == st[i - 1] && s[j] == st[j - 1]);
                    }
                }
            }
        }
    }
}

impl<VT, ET> GraphView<VT, ET> {
    /// Replacing the edge list of a present vertex keeps everything else:
    /// membership, the other vertices' lists and values, and well-formedness
    /// when the new list is itself valid.
    pub proof fn lemma_with_edges(self, vertex_id: DefaultGraphIdType, edges: Seq<EdgeDirectionView<ET>>)
        requires
            self.wf(),
            self.contains_id(vertex_id),
            unique_targets(edges),
        ensures
            self.with_edges(vertex_id, edges).wf(),
            self.with_edges(vertex_id, edges).mode == self.mode,
            self.with_edges(vertex_id, edges).vertices.len() == self.vertices.len(),
            forall|x: DefaultGraphIdType|
                self.with_edges(vertex_id, edges).contains_id(x) <==> self.contains_id(x),
            self.with_edges(vertex_id, edges).edges_of(vertex_id) == edges,
            self.with_edges(vertex_id, edges).value_of(vertex_id) == self.value_of(vertex_id),
            forall|x: DefaultGraphIdType|
                x != vertex_id && self.contains_id(x) ==> #[trigger] self.with_edges(
                    vertex_id,
                    edges,
                ).edges_of(x) == self.edges_of(x) && self.with_edges(vertex_id, edges).value_of(x)
                    == self.value_of(x),
    {
        let g2 = self.with_edges(vertex_id, edges);
        let i = self.vertex_ix(vertex_id);
        assert(0 <= i < self.vertices.len() && self.vertices[i].id == vertex_id);
        assert(forall|k: int|
            0 <= k < g2.vertices.len() ==> (#[trigger] g2.vertices[k]).id == self.vertices[k].id);
        assert forall|x: DefaultGraphIdType| g2.contains_id(x) implies self.contains_id(x) by {
            let k = choose|k: int| 0 <= k < g2.vertices.len() && g2.vertices[k].id == x;
            assert(self.vertices[k].id == x);
        }
        assert forall|x: DefaultGraphIdType| self.contains_id(x) implies g2.contains_id(x) by {
            let k = choose|k: int| 0 <= k < self.vertices.len() && self.vertices[k].id == x;
            assert(g2.vertices[k].id == x);
        }
        g2.lemma_vertex_ix_is(vertex_id, i);
        assert forall|x: DefaultGraphIdType| x != vertex_id && self.contains_id(x) implies
            #[trigger] g2.edges_of(x) == self.edges_of(x) && g2.value_of(x) == self.value_of(
            x,
        ) by {
            let k = choose|k: int| 0 <= k < self.vertices.len() && self.vertices[k].id == x;
            self.lemma_vertex_ix_is(x, k);
            g2.lemma_vertex_ix_is(x, k);
            assert(k != i);
        }
    }
}

/// The vertex sequence with the (unique, if the graph is well formed) vertex
/// keyed by `id` removed; order kept.
pub open spec fn remove_id<VT, ET>(
    vertices: Seq<VertexView<VT, ET>>,
    id: DefaultGraphIdType,
) -> Seq<VertexView<VT, ET>>
    decreases vertices.len(),
{
    if vertices.len() == 0 {
        Seq::empty()
    } else if vertices[0].id == id {
        vertices.drop_first()
    } else {
        seq![vertices[0]] + remove_id(vertices.drop_first(), id)
    }
}

/// Removing an absent identifier changes nothing.
pub proof fn lemma_remove_id_absent<VT, ET>(
    vertices: Seq<VertexView<VT, ET>>,
    id: DefaultGraphIdType,
)
    requires
        forall|k: int| 0 <= k < vertices.len() ==> vertices[k].id != id,
    ensures
        remove_id(vertices, id) == vertices,
    decreases vertices.len(),
{
    if vertices.len() == 0 {
        assert(remove_id(vertices, id) =~= vertices);
    } else {
        lemma_remove_id_absent(vertices.drop_first(), id);
        assert(remove_id(vertices, id) =~= vertices);
    }
}

/// When exactly one vertex carries `id`, removal drops that vertex alone.
pub proof fn lemma_remove_id_single<VT, ET>(
    vertices: Seq<VertexView<VT, ET>>,
    id: DefaultGraphIdType,
    i: int,
)
    requires
        0 <= i < vertices.len(),
        vertices[i].id == id,
        forall|j: int| 0 <= j < vertices.len() && j != i ==> vertices[j].id != id,
    ensures
        remove_id(vertices, id) == vertices.remove(i),
    decreases i,
{
    if i == 0 {
        assert(remove_id(vertices, id) =~= vertices.remove(0));
    } else {
        lemma_remove_id_single(vertices.drop_first(), id, i - 1);
        assert(remove_id(vertices, id) =~= vertices.remove(i));
    }
}

/// One vertex with every record aiming at `id` scrubbed from its edge list.
pub open spec fn scrub_vertex<VT, ET>(
    v: VertexView<VT, ET>,
    id: DefaultGraphIdType,
) -> VertexView<VT, ET> {
    VertexView { id: v.id, value: v.value, edges: scrub_target(v.edges, id) }
}

/// The whole effect of deleting a vertex: its entry goes, and every remaining
/// vertex's edge list is scrubbed of records aiming at it.
pub open spec fn spec_delete_vertex<VT, ET>(
    g: GraphView<VT, ET>,
    id: DefaultGraphIdType,
) -> GraphView<VT, ET> {
    GraphView {
        mode: g.mode,
        vertices: remove_id(g.vertices, id).map_values(|v: VertexView<VT, ET>| scrub_vertex(v, id)),
    }
}

/// The effect of removing the one record `from -> to`, when `from` exists.
pub open spec fn spec_scrub_edge<VT, ET>(
    g: GraphView<VT, ET>,
    from: DefaultGraphIdType,
    to: DefaultGraphIdType,
) -> GraphView<VT, ET> {
    if g.contains_id(from) {
        g.with_edges(from, scrub_target(g.edges_of(from), to))
    } else {
        g
    }
}

/// The whole effect of `delete_edge`: one direction in a directed graph, both
/// mirrored directions in an undirected one; absence is never a failure.
pub open spec fn spec_delete_edge<VT, ET>(
    g: GraphView<VT, ET>,
    from: DefaultGraphIdType,
    to: DefaultGraphIdType,
) -> GraphView<VT, ET> {
    match g.mode {
        GraphType::Undirected => spec_scrub_edge(spec_scrub_edge(g, from, to), to, from),
        GraphType::Directed => spec_scrub_edge(g, from, to),
    }
}

/// The effect of inserting one adjacency record into `from`'s list.
pub open spec fn spec_insert_dir<VT, ET>(
    g: GraphView<VT, ET>,
    from: DefaultGraphIdType,
    e: EdgeDirectionView<ET>,
) -> GraphView<VT, ET> {
    g.with_edges(from, insert_direction(g.edges_of(from), e))
}

/// The whole effect of `add_edge`, result and graph together.
/// In undirected mode the two mirrored insertions are independent: when the
/// target is missing, the strong half already inserted stays behind.
pub open spec fn spec_add_edge<VT, ET>(
    g: GraphView<VT, ET>,
    from: DefaultGraphIdType,
    to: DefaultGraphIdType,
    value: Option<ET>,
) -> (Result<(), GraphError>, GraphView<VT, ET>) {
    match g.mode {
        GraphType::Undirected => {
            if !g.contains_id(from) {
                (Err(GraphError::VertexNotFound(from)), g)
            } else {
                let g1 = spec_insert_dir(g, from, direction_view(to, value, true));
                if !g1.contains_id(to) {
                    (Err(GraphError::VertexNotFound(to)), g1)
                } else {
                    (Ok(()), spec_insert_dir(g1, to, direction_view(from, value, false)))
                }
            }
        },
        GraphType::Directed => {
            if !g.contains_id(to) {
                (Err(GraphError::VertexNotFound(to)), g)
            } else if !g.contains_id(from) {
                (Err(GraphError::VertexNotFound(from)), g)
            } else {
                (Ok(()), spec_insert_dir(g, from, direction_view(to, value, true)))
            }
        },
    }
}

/// Inserting one record into a present vertex's list keeps the graph well
/// formed and touches nothing else.
pub proof fn lemma_insert_dir_props<VT, ET>(
    g: GraphView<VT, ET>,
    from: DefaultGraphIdType,
    e: EdgeDirectionView<ET>,
)
    requires
        g.wf(),
        g.contains_id(from),
    ensures
        spec_insert_dir(g, from, e).wf(),
        spec_insert_dir(g, from, e).mode == g.mode,
        spec_insert_dir(g, from, e).vertices.len() == g.vertices.len(),
        forall|x: DefaultGraphIdType|
            spec_insert_dir(g, from, e).contains_id(x) <==> g.contains_id(x),
        spec_insert_dir(g, from, e).edges_of(from) == insert_direction(g.edges_of(from), e),
        spec_insert_dir(g, from, e).value_of(from) == g.value_of(from),
        forall|x: DefaultGraphIdType|
            x != from && g.contains_id(x) ==> #[trigger] spec_insert_dir(g, from, e).edges_of(x)
                == g.edges_of(x) && spec_insert_dir(g, from, e).value_of(x) == g.value_of(x),
        forall|t: int|
            0 <= t < g.vertices.len() ==> (#[trigger] spec_insert_dir(g, from, e).vertices[t]).id
                == g.vertices[t].id && spec_insert_dir(g, from, e).vertices[t].value
                == g.vertices[t].value,
{
    let es = g.edges_of(from);
    let new_es = insert_direction(es, e);
    assert(unique_targets(es)) by {
        let i = g.vertex_ix(from);
        assert(g.vertices[i].wf());
    }
    assert(unique_targets(new_es)) by {
        if !list_has_target(es, e.to) {
            assert forall|a: int, b: int| 0 <= a < b < new_es.len() implies new_es[a].to
                != new_es[b].to by {
                if b < new_es.len() - 1 {
                    assert(es[a].to != es[b].to);
                } else {
                    assert(new_es[b] == e);
                    if es[a].to == e.to {
                        assert(list_has_target(es, e.to));
                    }
                }
            }
        }
    }
    g.lemma_with_edges(from, new_es);
}

/// Removes the record aiming at `to_id` from the list, if one is there; with
/// unique targets there is at most one, so the first hit is the only hit.
fn remove_edge_with_target<ET>(edges: &mut Vec<EdgeDirection<ET>>, to_id: DefaultGraphIdType)
    requires
        unique_targets(edge_views(old(edges)@)),
    ensures
        edge_views(final(edges)@) == scrub_target(edge_views(old(edges)@), to_id),
{
    let ghost evs = edge_views(edges@);
    let n = edges.len();
    let mut j: usize = 0;
    while j < n
        invariant
            n == edges@.len(),
            j <= n,
            evs == edge_views(edges@),
            evs == edge_views(old(edges)@),
            unique_targets(evs),
            forall|k: int| 0 <= k < j ==> evs[k].to != to_id,
        decreases n - j,
    {
        assert(evs[j as int] == edges@[j as int]@);
        if edges[j].to_vertex_id == to_id {
            proof {
                assert forall|k: int| 0 <= k < evs.len() && k != j implies evs[k].to != to_id by {
                    if k < j as int {
                        assert(evs[k].to != evs[j as int].to);
                    } else {
                        assert(evs[j as int].to != evs[k].to);
                    }
                }
                lemma_scrub_single(evs, to_id, j as int);
            }
            edges.remove(j);
            proof {
                assert(edge_views(edges@) =~= evs.remove(j as int));
            }
            return ;
        }
        j += 1;
    }
    proof {
        lemma_scrub_absent(evs, to_id);
    }
}

impl<VT, ET> Vertex<VT, ET> {
    /// A fresh vertex with no edges yet.
    pub fn new(id: DefaultGraphIdType, value: Option<VT>) -> (r: Vertex<VT, ET>)
        ensures
            r@.id == id,
            r@.value == value,
            r@.edges =~= Seq::<EdgeDirectionView<ET>>::empty(),
            r@.wf(),
    {
        Vertex { id, value, edge_directions: Vec::new() }
    }
}

impl<ET> EdgeDirection<ET> {
    /// A genuine (strong) adjacency record.
    pub fn new(to_vertex_id: DefaultGraphIdType, value: Rc<Option<ET>>) -> (r: EdgeDirection<ET>)
        ensures
            r@.to == to_vertex_id,
            r@.value == value,
            r@.strong,
    {
        EdgeDirection { to_vertex_id, value, kind: EdgeDirectionType::Strong }
    }

    /// The mirror (weak) half of an undirected edge.
    pub fn new_weak(to_vertex_id: DefaultGraphIdType, value: Rc<Option<ET>>) -> (r: EdgeDirection<
        ET,
    >)
        ensures
            r@.to == to_vertex_id,
            r@.value == value,
            !r@.strong,
    {
        EdgeDirection { to_vertex_id, value, kind: EdgeDirectionType::Weak }
    }
}

impl<VT, ET> Graph<VT, ET> {
    /// An empty graph in the given mode; the mode never changes afterwards.
    pub fn new(mode: GraphType) -> (r: Graph<VT, ET>)
        ensures
            r@.mode == mode,
            r@.vertices =~= Seq::<VertexView<VT, ET>>::empty(),
            r@.wf(),
    {
        Graph { vertices: Vec::new(), mode }
    }

    /// The storage position of `vertex_id`, or `None` when absent.
    pub(crate) fn find_vertex_position(&self, vertex_id: DefaultGraphIdType) -> (r: Option<usize>)
        ensures
            match r {
                Some(i) => i < self@.vertices.len() && self@.vertices[i as int].id == vertex_id,
                None => !self@.contains_id(vertex_id),
            },
            r is Some <==> self@.contains_id(vertex_id),
    {
        let n = self.vertices.len();
        let mut i: usize = 0;
        while i < n
            invariant
                n == self@.vertices.len(),
                i <= n,
                forall|j: int| 0 <= j < i ==> self@.vertices[j].id != vertex_id,
            decreases n - i,
        {
            if self.vertices[i].id == vertex_id {
                return Some(i);
            }
            i += 1;
        }
        None
    }

    /// Membership of an identifier: the predicate the codec uses to validate
    /// edge endpoints before insertion.
    pub fn contains_vertex(&self, vertex_id: DefaultGraphIdType) -> (r: bool)
        ensures
            r == self@.contains_id(vertex_id),
    {
        self.find_vertex_position(vertex_id).is_some()
    }

    /// Inserts a vertex under its own identifier. Fails, changing nothing,
    /// when the identifier is already a key; succeeds with no other side
    /// effect otherwise.
    pub fn add_vertex(&mut self, vertex: Vertex<VT, ET>) -> (r: Result<(), GraphError>)
        requires
            old(self)@.wf(),
            vertex@.wf(),
        ensures
            final(self)@.wf(),
            old(self)@.contains_id(vertex.id) ==> (r matches Err(e) && e
                == GraphError::VertexAlreadyExist(vertex.id) && final(self)@ == old(self)@),
            !old(self)@.contains_id(vertex.id) ==> r is Ok && final(self)@ == old(
                self,
            )@.push_vertex(vertex@),
    {
        if self.find_vertex_position(vertex.id).is_some() {
            return Err(GraphError::VertexAlreadyExist(vertex.id));
        }
        let ghost pre = self@;
        let ghost vv = vertex@;
        self.vertices.push(vertex);
        proof {
            assert(self@.vertices =~= pre.vertices.push(vv));
            assert(self@ == pre.push_vertex(vv));
        }
        Ok(())
    }

    /// Inserts one adjacency record into `from_id`'s list: a no-op when a
    /// record with the same target is already there, a `VertexNotFound`
    /// failure when `from_id` itself is absent.
    fn add_edge_direction(
        &mut self,
        from_id: DefaultGraphIdType,
        to_id: DefaultGraphIdType,
        value: Rc<Option<ET>>,
        edge_direction_type: EdgeDirectionType,
    ) -> (r: Result<(), GraphError>)
        requires
            old(self)@.wf(),
        ensures
            final(self)@.wf(),
            !old(self)@.contains_id(from_id) ==> (r matches Err(e) && e
                == GraphError::VertexNotFound(from_id) && final(self)@ == old(self)@),
            old(self)@.contains_id(from_id) ==> r is Ok && final(self)@ == spec_insert_dir(
                old(self)@,
                from_id,
                direction_view(to_id, shared_value(value), edge_direction_type is Strong),
            ),
    {
        let pos = self.find_vertex_position(from_id);
        let p = match pos {
            Some(p) => p,
            None => {
                return Err(GraphError::VertexNotFound(from_id));
            },
        };
        let ghost pre = self@;
        let ghost e = direction_view(to_id, shared_value(value), edge_direction_type is Strong);
        proof {
            pre.lemma_vertex_ix_is(from_id, p as int);
            assert(pre.edges_of(from_id) == pre.vertices[p as int].edges);
        }
        let n = self.vertices[p].edge_directions.len();
        let mut j: usize = 0;
        while j < n
            invariant
                self@ == pre,
                pre == old(self)@,
                pre.wf(),
                p < self.vertices@.len(),
                n == self.vertices@[p as int].edge_directions@.len(),
                j <= n,
                pre.vertex_ix(from_id) == p as int,
                pre.contains_id(from_id),
                e == direction_view(to_id, shared_value(value), edge_direction_type is Strong),
                forall|k: int| 0 <= k < j ==> pre.vertices[p as int].edges[k].to != to_id,
            decreases n - j,
        {
            assert(pre.vertices[p as int].edges[j as int] == self.vertices@[p as int].edge_directions@[j as int]@);
            if self.vertices[p].edge_directions[j].to_vertex_id == to_id {
                proof {
                    assert(list_has_target(pre.edges_of(from_id), to_id));
                    assert(insert_direction(pre.edges_of(from_id), e) == pre.edges_of(from_id));
                    assert(pre.with_edges(from_id, pre.edges_of(from_id)).vertices =~= pre.vertices);
                    assert(spec_insert_dir(pre, from_id, e) =~= pre);
                }
                return Ok(());
            }
            j += 1;
        }
        let edge_to = match edge_direction_type {
            EdgeDirectionType::Strong => EdgeDirection::new(to_id, value),
            EdgeDirectionType::Weak => EdgeDirection::new_weak(to_id, value),
        };
        assert(edge_to@ == e);
        self.vertices[p].edge_directions.push(edge_to);
        proof {
            assert(!list_has_target(pre.edges_of(from_id), to_id));
            let old_edges = pre.edges_of(from_id);
            let new_edges = old_edges.push(e);
            assert(insert_direction(old_edges, e) == new_edges);
            assert(pre.vertices[p as int].wf());
            assert forall|a: int, b: int| 0 <= a < b < new_edges.len() implies new_edges[a].to
                != new_edges[b].to by {
                if b < new_edges.len() - 1 {
                    assert(old_edges[a].to != old_edges[b].to);
                } else {
                    assert(new_edges[b] == e);
                    assert(old_edges[a].to != to_id);
                }
            }
            assert(unique_targets(new_edges));
            assert(forall|t: int|
                0 <= t < self.vertices@.len() ==> #[trigger] self@.vertices[t] == self.vertices@[t]@);
            assert(self@.vertices[p as int].edges =~= new_edges);
            assert(self@.vertices =~= pre.with_edges(from_id, new_edges).vertices);
            assert(self@ =~= pre.with_edges(from_id, new_edges));
            pre.lemma_with_edges(from_id, new_edges);
        }
        Ok(())
    }

    /// Adds an edge. Undirected mode inserts a strong record `from -> to` and
    /// a weak mirror `to -> from` sharing one payload, each insertion an
    /// independent no-op on a duplicate target; whichever endpoint turns out
    /// missing is reported. Directed mode checks the target up front and then
    /// inserts the single strong record.
    pub fn add_edge(
        &mut self,
        from_id: DefaultGraphIdType,
        to_id: DefaultGraphIdType,
        value: Option<ET>,
    ) -> (r: Result<(), GraphError>)
        requires
            old(self)@.wf(),
        ensures
            final(self)@.wf(),
            r == spec_add_edge(old(self)@, from_id, to_id, value).0,
            final(self)@ == spec_add_edge(old(self)@, from_id, to_id, value).1,
    {
        let shared = Rc::new(value);
        match self.mode {
            GraphType::Undirected => {
                match self.add_edge_direction(
                    from_id,
                    to_id,
                    shared.clone(),
                    EdgeDirectionType::Strong,
                ) {
                    Ok(_) => {},
                    Err(e) => {
                        return Err(e);
                    },
                }
                match self.add_edge_direction(to_id, from_id, shared, EdgeDirectionType::Weak) {
                    Ok(_) => {},
                    Err(e) => {
                        return Err(e);
                    },
                }
                Ok(())
            },
            GraphType::Directed => {
                if !self.contains_vertex(to_id) {
                    return Err(GraphError::VertexNotFound(to_id));
                }
                match self.add_edge_direction(from_id, to_id, shared, EdgeDirectionType::Strong) {
                    Ok(_) => {},
                    Err(e) => {
                        return Err(e);
                    },
                }
                Ok(())
            },
        }
    }

    /// Removes the record `from_id -> to_id` from `from_id`'s list, if either
    /// exists; never a failure.
    fn delete_edge_direction(&mut self, from_id: DefaultGraphIdType, to_id: DefaultGraphIdType)
        requires
            old(self)@.wf(),
        ensures
            final(self)@.wf(),
            final(self)@ == spec_scrub_edge(old(self)@, from_id, to_id),
    {
        let pos = self.find_vertex_position(from_id);
        if let Some(p) = pos {
            let ghost pre = self@;
            proof {
                pre.lemma_vertex_ix_is(from_id, p as int);
                assert(pre.vertices[p as int].wf());
                assert(pre.edges_of(from_id) == pre.vertices[p as int].edges);
                assert(edge_views(self.vertices@[p as int].edge_directions@) == pre.vertices[p
                    as int].edges);
            }
            remove_edge_with_target(&mut self.vertices[p].edge_directions, to_id);
            proof {
                let scrubbed = scrub_target(pre.edges_of(from_id), to_id);
                lemma_scrub_props(pre.edges_of(from_id), to_id);
                pre.lemma_with_edges(from_id, scrubbed);
                assert(self@.vertices =~= pre.with_edges(from_id, scrubbed).vertices);
                assert(self@ == pre.with_edges(from_id, scrubbed));
            }
        }
    }

    /// Deletes an edge: both mirrored directions in undirected mode, the one
    /// direction in directed mode. Absence of either endpoint or record is
    /// tolerated silently.
    pub fn delete_edge(&mut self, from_id: DefaultGraphIdType, to_id: DefaultGraphIdType)
        requires
            old(self)@.wf(),
        ensures
            final(self)@.wf(),
            final(self)@ == spec_delete_edge(old(self)@, from_id, to_id),
    {
        match self.mode {
            GraphType::Undirected => {
                self.delete_edge_direction(from_id, to_id);
                self.delete_edge_direction(to_id, from_id);
            },
            GraphType::Directed => {
                self.delete_edge_direction(from_id, to_id);
            },
        }
    }

    /// Deletes the vertex keyed by `vertex_id` if present (no failure when
    /// absent), then scrubs every remaining vertex's edge list of records
    /// aiming at it, so that no adjacency reference to it survives.
    pub fn delete_vertex(&mut self, vertex_id: DefaultGraphIdType)
        requires
            old(self)@.wf(),
        ensures
            final(self)@.wf(),
            final(self)@ == spec_delete_vertex(old(self)@, vertex_id),
    {
        let ghost pre = self@;
        let pos = self.find_vertex_position(vertex_id);
        if let Some(p) = pos {
            proof {
                pre.lemma_vertex_ix_is(vertex_id, p as int);
                lemma_remove_id_single(pre.vertices, vertex_id, p as int);
            }
            self.vertices.remove(p);
        } else {
            proof {
                assert(forall|k: int|
                    0 <= k < pre.vertices.len() ==> (#[trigger] pre.vertices[k]).id != vertex_id);
                lemma_remove_id_absent(pre.vertices, vertex_id);
            }
        }
        let ghost mid = remove_id(pre.vertices, vertex_id);
        proof {
            assert(self@.vertices =~= mid);
            assert(forall|t: int| 0 <= t < mid.len() ==> (#[trigger] mid[t]).wf()) by {
                if pos is Some {
                    let p = pos.unwrap() as int;
                    assert(forall|t: int|
                        0 <= t < mid.len() ==> #[trigger] mid[t] == (if t < p {
                            pre.vertices[t]
                        } else {
                            pre.vertices[t + 1]
                        }));
                }
            }
        }
        let n = self.vertices.len();
        let mut i: usize = 0;
        while i < n
            invariant
                n == self.vertices@.len(),
                i <= n,
                mid.len() == n,
                self@.mode == pre.mode,
                forall|t: int| 0 <= t < mid.len() ==> (#[trigger] mid[t]).wf(),
                forall|t: int|
                    0 <= t < i ==> self@.vertices[t] == scrub_vertex(mid[t], vertex_id),
                forall|t: int| i <= t < n ==> self@.vertices[t] == mid[t],
            decreases n - i,
        {
            let ghost snap = self@;
            proof {
                assert(edge_views(self.vertices@[i as int].edge_directions@) == mid[i
                    as int].edges);
            }
            remove_edge_with_target(&mut self.vertices[i].edge_directions, vertex_id);
            proof {
                assert(forall|t: int|
                    0 <= t < self.vertices@.len() ==> #[trigger] self@.vertices[t]
                        == self.vertices@[t]@);
                assert(self@.vertices[i as int].edges =~= scrub_target(
                    mid[i as int].edges,
                    vertex_id,
                ));
                assert(self@.vertices[i as int] =~= scrub_vertex(mid[i as int], vertex_id));
                assert(forall|t: int|
                    0 <= t < n && t != i ==> self@.vertices[t] == snap.vertices[t]);
                assert forall|t: int| 0 <= t < i + 1 implies self@.vertices[t] == scrub_vertex(
                    mid[t],
                    vertex_id,
                ) by {
                    if t < i as int {
                        assert(self@.vertices[t] == snap.vertices[t]);
                        assert(snap.vertices[t] == scrub_vertex(mid[t], vertex_id));
                    }
                }
            }
            i += 1;
        }
        proof {
            assert(self@.vertices =~= mid.map_values(
                |v: VertexView<VT, ET>| scrub_vertex(v, vertex_id),
            ));
            assert(self@ == spec_delete_vertex(pre, vertex_id));
            assert(self@.wf()) by {
                assert(forall|t: int|
                    0 <= t < mid.len() ==> (#[trigger] self@.vertices[t]).id == mid[t].id
                        && self@.vertices[t].edges == scrub_target(mid[t].edges, vertex_id));
                assert forall|t: int| 0 <= t < mid.len() implies (
                #[trigger] self@.vertices[t]).wf() by {
                    lemma_scrub_props(mid[t].edges, vertex_id);
                }
                if pos is Some {
                    let p = pos.unwrap() as int;
                    assert(forall|t: int|
                        0 <= t < mid.len() ==> #[trigger] mid[t] == (if t < p {
                            pre.vertices[t]
                        } else {
                            pre.vertices[t + 1]
                        }));
                }
            }
        }
    }
}

} // verus!
