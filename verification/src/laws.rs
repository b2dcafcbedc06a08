//! The library's laws: what the mutation operations guarantee about
//! traversal, stated once over the models and proved for every graph.

use vstd::prelude::*;

use crate::bfs::{
    lemma_reaches_contains, lemma_reaches_self, lemma_reaches_step, spec_reaches, spec_step,
};
use crate::codec::{delimiter_chars, deser_ok, spec_add_undirected, spec_deser_from, spec_deserialize,
    spec_edge_line, spec_edge_lines, spec_edge_lines_list, spec_parse_edge_line,
    spec_parse_vertex, spec_serialize, spec_vertex_line, spec_vertex_lines, EdgeLineParse,
    LineParse, SpecDeser};
use crate::digits::{
    lemma_first_space_is, lemma_u32_chars_no_space, lemma_u32_chars_val, u32_chars,
};
use crate::graph::{
    direction_view, insert_direction, lemma_insert_dir_props, lemma_scrub_props,
    lemma_remove_id_absent, lemma_remove_id_single, list_has_target, remove_id, scrub_target,
    scrub_vertex, spec_add_edge, spec_delete_edge, spec_delete_vertex, spec_insert_dir,
    spec_scrub_edge, DefaultGraphIdType, EdgeDirectionView, GraphView, VertexView,
};

verus! {

/// An inserted record's target is afterwards among the list's targets.
proof fn lemma_insert_has_target<ET>(edges: Seq<EdgeDirectionView<ET>>, e: EdgeDirectionView<ET>)
    ensures
        list_has_target(insert_direction(edges, e), e.to),
{
    if list_has_target(edges, e.to) {
    } else {
        let n = edges.len();
        assert(insert_direction(edges, e)[n as int] == e);
    }
}

/// A listed target is a target: membership transfers to the target map.
proof fn lemma_has_target_targets<VT, ET>(g: GraphView<VT, ET>, a: DefaultGraphIdType, t: DefaultGraphIdType)
    requires
        list_has_target(g.edges_of(a), t),
    ensures
        g.targets(a).contains(t),
{
    let k = choose|k: int| 0 <= k < g.edges_of(a).len() && g.edges_of(a)[k].to == t;
    assert(g.targets(a)[k] == t);
}

/// Undirected symmetry: adding an edge between two present vertices succeeds
/// and afterwards each endpoint reaches the other.
pub proof fn lemma_undirected_add_edge_symmetric<VT, ET>(
    g: GraphView<VT, ET>,
    a: DefaultGraphIdType,
    b: DefaultGraphIdType,
    value: Option<ET>,
)
    requires
        g.wf(),
        g.mode is Undirected,
        g.contains_id(a),
        g.contains_id(b),
    ensures
        spec_add_edge(g, a, b, value).0 is Ok,
        spec_reaches(spec_add_edge(g, a, b, value).1, a, b),
        spec_reaches(spec_add_edge(g, a, b, value).1, b, a),
{
    let e1 = direction_view(b, value, true);
    let g1 = spec_insert_dir(g, a, e1);
    lemma_insert_dir_props(g, a, e1);
    let e2 = direction_view(a, value, false);
    let g2 = spec_insert_dir(g1, b, e2);
    lemma_insert_dir_props(g1, b, e2);
    assert(g2 == spec_add_edge(g, a, b, value).1);
    assert(g2.contains_id(a) && g2.contains_id(b));
    if a == b {
        lemma_reaches_self(g2, a);
    } else {
        lemma_insert_has_target(g.edges_of(a), e1);
        assert(g2.edges_of(a) == g1.edges_of(a));
        assert(list_has_target(g2.edges_of(a), b));
        lemma_has_target_targets(g2, a, b);
        assert(spec_step(g2, a, b));
        lemma_insert_has_target(g1.edges_of(b), e2);
        assert(list_has_target(g2.edges_of(b), a));
        lemma_has_target_targets(g2, b, a);
        assert(spec_step(g2, b, a));
        lemma_reaches_self(g2, a);
        lemma_reaches_step(g2, a, a, b);
        lemma_reaches_self(g2, b);
        lemma_reaches_step(g2, b, b, a);
    }
}

/// What deleting one edge record does to a present source's list.
proof fn lemma_scrub_edge_props<VT, ET>(
    g: GraphView<VT, ET>,
    from: DefaultGraphIdType,
    to: DefaultGraphIdType,
)
    requires
        g.wf(),
    ensures
        spec_scrub_edge(g, from, to).wf(),
        spec_scrub_edge(g, from, to).mode == g.mode,
        forall|x: DefaultGraphIdType|
            spec_scrub_edge(g, from, to).contains_id(x) <==> g.contains_id(x),
        g.contains_id(from) ==> !list_has_target(spec_scrub_edge(g, from, to).edges_of(from), to),
        forall|x: DefaultGraphIdType|
            x != from && g.contains_id(x) ==> #[trigger] spec_scrub_edge(g, from, to).edges_of(x)
                == g.edges_of(x),
{
    if g.contains_id(from) {
        let scrubbed = scrub_target(g.edges_of(from), to);
        lemma_scrub_props(g.edges_of(from), to);
        lemma_unique_targets_of(g, from);
        g.lemma_with_edges(from, scrubbed);
    }
}

/// The source vertex's list in a well-formed graph has unique targets.
proof fn lemma_unique_targets_of<VT, ET>(g: GraphView<VT, ET>, from: DefaultGraphIdType)
    requires
        g.wf(),
        g.contains_id(from),
    ensures
        crate::graph::unique_targets(g.edges_of(from)),
{
    let i = g.vertex_ix(from);
    assert(g.vertices[i].wf());
}

/// Undirected edge deletion removes both mirrored records: afterwards neither
/// endpoint's list aims at the other.
pub proof fn lemma_undirected_delete_edge_removes<VT, ET>(
    g: GraphView<VT, ET>,
    a: DefaultGraphIdType,
    b: DefaultGraphIdType,
)
    requires
        g.wf(),
        g.mode is Undirected,
    ensures
        spec_delete_edge(g, a, b).wf(),
        forall|x: DefaultGraphIdType| spec_delete_edge(g, a, b).contains_id(x) <==> g.contains_id(x),
        spec_delete_edge(g, a, b).contains_id(a) ==> !list_has_target(
            spec_delete_edge(g, a, b).edges_of(a),
            b,
        ),
        spec_delete_edge(g, a, b).contains_id(b) ==> !list_has_target(
            spec_delete_edge(g, a, b).edges_of(b),
            a,
        ),
{
    let g1 = spec_scrub_edge(g, a, b);
    lemma_scrub_edge_props(g, a, b);
    let g2 = spec_scrub_edge(g1, b, a);
    lemma_scrub_edge_props(g1, b, a);
    assert(g2 == spec_delete_edge(g, a, b));
    if g.contains_id(b) {
        lemma_scrub_props(g1.edges_of(b), a);
    }
    if g.contains_id(a) && a != b {
        assert(g2.edges_of(a) == g1.edges_of(a));
    }
}

/// Any walk in a graph whose only change against `g` is a larger edge list at
/// `a` can be replayed in `g`, as long as it ends at `a` itself: the new
/// records leave `a`, so they cannot help a walk arrive there first.
proof fn lemma_path_to_changed_vertex<VT, ET>(
    g: GraphView<VT, ET>,
    g2: GraphView<VT, ET>,
    a: DefaultGraphIdType,
    p: Seq<DefaultGraphIdType>,
)
    requires
        forall|x: DefaultGraphIdType| g2.contains_id(x) <==> g.contains_id(x),
        forall|x: DefaultGraphIdType|
            x != a && g.contains_id(x) ==> #[trigger] g2.targets(x) == g.targets(x),
        crate::bfs::is_path(g2, p),
        p.last() == a,
    ensures
        spec_reaches(g, p.first(), a),
    decreases p.len(),
{
    if exists|j: int| 0 <= j < p.len() - 1 && p[j] == a {
        let j = choose|j: int| 0 <= j < p.len() - 1 && p[j] == a;
        let q = p.take(j + 1);
        assert(crate::bfs::is_path(g2, q)) by {
            assert(forall|k: int| 0 <= k < q.len() ==> q[k] == p[k]);
        }
        assert(q.last() == a);
        lemma_path_to_changed_vertex(g, g2, a, q);
        assert(q.first() == p.first());
    } else {
        assert(crate::bfs::is_path(g, p)) by {
            assert forall|k: int| #![trigger p[k]] 0 <= k < p.len() - 1 implies spec_step(
                g,
                p[k],
                p[k + 1],
            ) by {
                assert(spec_step(g2, p[k], p[k + 1]));
                assert(p[k] != a);
                assert(g2.targets(p[k]) == g.targets(p[k]));
            }
        }
        assert(spec_reaches(g, p.first(), p.last()));
    }
}

/// Directed asymmetry: adding `a -> b` between present vertices succeeds,
/// makes `b` reachable from `a`, and creates no way back: `b` reaches `a`
/// afterwards only if it already did.
pub proof fn lemma_directed_add_edge_asymmetric<VT, ET>(
    g: GraphView<VT, ET>,
    a: DefaultGraphIdType,
    b: DefaultGraphIdType,
    value: Option<ET>,
)
    requires
        g.wf(),
        g.mode is Directed,
        g.contains_id(a),
        g.contains_id(b),
    ensures
        spec_add_edge(g, a, b, value).0 is Ok,
        spec_reaches(spec_add_edge(g, a, b, value).1, a, b),
        spec_reaches(spec_add_edge(g, a, b, value).1, b, a) ==> spec_reaches(g, b, a),
{
    let e1 = direction_view(b, value, true);
    let g2 = spec_insert_dir(g, a, e1);
    lemma_insert_dir_props(g, a, e1);
    assert(g2 == spec_add_edge(g, a, b, value).1);
    lemma_insert_has_target(g.edges_of(a), e1);
    lemma_has_target_targets(g2, a, b);
    assert(spec_step(g2, a, b));
    lemma_reaches_self(g2, a);
    lemma_reaches_step(g2, a, a, b);
    if spec_reaches(g2, b, a) {
        let p = choose|p: Seq<DefaultGraphIdType>|
            crate::bfs::is_path(g2, p) && p.first() == b && p.last() == a;
        assert forall|x: DefaultGraphIdType| x != a && g.contains_id(x) implies #[trigger] g2.targets(
            x,
        ) == g.targets(x) by {
            assert(g2.edges_of(x) == g.edges_of(x));
        }
        lemma_path_to_changed_vertex(g, g2, a, p);
    }
}

/// Deletion cascades: after deleting vertex `b`, it is gone, every other
/// vertex stays, no adjacency list aims at it any more, and no traversal can
/// reach or leave it.
pub proof fn lemma_delete_vertex_cascades<VT, ET>(g: GraphView<VT, ET>, b: DefaultGraphIdType)
    requires
        g.wf(),
    ensures
        spec_delete_vertex(g, b).wf(),
        !spec_delete_vertex(g, b).contains_id(b),
        forall|x: DefaultGraphIdType|
            x != b ==> (spec_delete_vertex(g, b).contains_id(x) <==> g.contains_id(x)),
        forall|x: DefaultGraphIdType|
            spec_delete_vertex(g, b).contains_id(x) ==> !#[trigger] spec_delete_vertex(
                g,
                b,
            ).targets(x).contains(b),
        forall|s: DefaultGraphIdType, t: DefaultGraphIdType|
            #[trigger] spec_reaches(spec_delete_vertex(g, b), s, t) ==> s != b && t != b,
{
    let g2 = spec_delete_vertex(g, b);
    let mid = remove_id(g.vertices, b);
    if g.contains_id(b) {
        let k = choose|k: int| 0 <= k < g.vertices.len() && g.vertices[k].id == b;
        g.lemma_vertex_ix_is(b, k);
        lemma_remove_id_single(g.vertices, b, k);
        assert(forall|t: int|
            0 <= t < mid.len() ==> #[trigger] mid[t] == (if t < k {
                g.vertices[t]
            } else {
                g.vertices[t + 1]
            }));
        assert(forall|t: int| 0 <= t < mid.len() ==> (#[trigger] mid[t]).id != b);
    } else {
        assert(forall|t: int| 0 <= t < g.vertices.len() ==> (#[trigger] g.vertices[t]).id != b);
        lemma_remove_id_absent(g.vertices, b);
    }
    assert(forall|t: int| 0 <= t < mid.len() ==> (#[trigger] mid[t]).wf());
    assert(forall|t: int, u: int| 0 <= t < u < mid.len() ==> mid[t].id != mid[u].id);
    assert(forall|t: int|
        0 <= t < g2.vertices.len() ==> #[trigger] g2.vertices[t] == scrub_vertex(mid[t], b));
    assert(g2.wf()) by {
        assert forall|t: int| 0 <= t < g2.vertices.len() implies (#[trigger] g2.vertices[t]).wf() by {
            lemma_scrub_props(mid[t].edges, b);
        }
    }
    assert(!g2.contains_id(b)) by {
        if g2.contains_id(b) {
            let t = choose|t: int| 0 <= t < g2.vertices.len() && g2.vertices[t].id == b;
            assert(mid[t].id == b);
        }
    }
    assert forall|x: DefaultGraphIdType| x != b implies (g2.contains_id(x) <==> g.contains_id(
        x,
    )) by {
        if g2.contains_id(x) {
            let t = choose|t: int| 0 <= t < g2.vertices.len() && g2.vertices[t].id == x;
            assert(mid[t].id == x);
            if g.contains_id(b) {
                let k = g.vertex_ix(b);
                if t < k {
                    assert(g.vertices[t].id == x);
                } else {
                    assert(g.vertices[t + 1].id == x);
                }
            } else {
                assert(g.vertices[t].id == x);
            }
            assert(g.contains_id(x));
        }
        if g.contains_id(x) && x != b {
            let t = choose|t: int| 0 <= t < g.vertices.len() && g.vertices[t].id == x;
            if g.contains_id(b) {
                let k = g.vertex_ix(b);
                assert(t != k);
                if t < k {
                    assert(mid[t].id == x);
                    assert(g2.vertices[t].id == x);
                } else {
                    assert(mid[t - 1].id == x);
                    assert(g2.vertices[t - 1].id == x);
                }
            } else {
                assert(g2.vertices[t].id == x);
            }
            assert(g2.contains_id(x));
        }
    }
    assert forall|x: DefaultGraphIdType| g2.contains_id(x) implies !#[trigger] g2.targets(
        x,
    ).contains(b) by {
        let t = choose|t: int| 0 <= t < g2.vertices.len() && g2.vertices[t].id == x;
        g2.lemma_vertex_ix_is(x, t);
        lemma_scrub_props(mid[t].edges, b);
        assert(g2.edges_of(x) == scrub_target(mid[t].edges, b));
        if g2.targets(x).contains(b) {
            let m = choose|m: int| 0 <= m < g2.targets(x).len() && g2.targets(x)[m] == b;
            assert(g2.edges_of(x)[m].to == b);
        }
    }
    assert forall|s: DefaultGraphIdType, t: DefaultGraphIdType| #[trigger] spec_reaches(
        g2,
        s,
        t,
    ) implies s != b && t != b by {
        lemma_reaches_contains(g2, s, t);
    }
}

/// Round trip of one vertex line: the text written for a vertex parses back
/// to the same identifier and value. (A value, when present, is nonempty:
/// the format cannot distinguish an empty value from no value.)
pub proof fn lemma_vertex_line_round_trip(v: VertexView<Seq<char>, Seq<char>>)
    requires
        v.value matches Option::Some(s) ==> s.len() > 0,
    ensures
        spec_parse_vertex(spec_vertex_line(v)) == LineParse::Vertex(v.id, v.value),
{
    let d = u32_chars(v.id as int);
    lemma_u32_chars_val(v.id as int);
    lemma_u32_chars_no_space(v.id as int);
    let line = spec_vertex_line(v);
    match v.value {
        Option::None => {
            assert(line =~= d);
            lemma_first_space_is(line, line.len() as int);
            assert(crate::digits::head_token(line) =~= d);
            lemma_digits_cast(v.id);
        },
        Option::Some(s) => {
            assert(line =~= d + seq![' '] + s);
            assert(forall|j: int| 0 <= j < d.len() ==> line[j] == d[j]);
            assert(line[d.len() as int] == ' ');
            lemma_first_space_is(line, d.len() as int);
            assert(crate::digits::head_token(line) =~= d);
            assert(crate::digits::tail_after_space(line) =~= s);
            lemma_digits_cast(v.id);
        },
    }
}

/// Casting the parsed value of an identifier's own text gives it back.
proof fn lemma_digits_cast(id: DefaultGraphIdType)
    ensures
        crate::digits::digits_val(u32_chars(id as int)) as DefaultGraphIdType == id,
{
    lemma_u32_chars_val(id as int);
}

/// Round trip of one edge line: the text written for a strong record parses
/// back to the same endpoints and value.
pub proof fn lemma_edge_line_round_trip(
    from: DefaultGraphIdType,
    e: EdgeDirectionView<Seq<char>>,
)
    requires
        e.value matches Option::Some(s) ==> s.len() > 0,
    ensures
        spec_parse_edge_line(spec_edge_line(from, e)) == EdgeLineParse::Edge(from, e.to, e.value),
{
    let d1 = u32_chars(from as int);
    let d2 = u32_chars(e.to as int);
    lemma_u32_chars_val(from as int);
    lemma_u32_chars_no_space(from as int);
    lemma_u32_chars_val(e.to as int);
    lemma_u32_chars_no_space(e.to as int);
    let line = spec_edge_line(from, e);
    let tail = match e.value {
        Option::Some(s) => seq![' '] + s,
        Option::None => Seq::<char>::empty(),
    };
    assert(line =~= d1 + seq![' '] + d2 + tail);
    assert(forall|j: int| 0 <= j < d1.len() ==> line[j] == d1[j]);
    assert(line[d1.len() as int] == ' ');
    lemma_first_space_is(line, d1.len() as int);
    assert(crate::digits::head_token(line) =~= d1);
    let r1 = crate::digits::tail_after_space(line);
    assert(r1 =~= d2 + tail);
    assert(forall|j: int| 0 <= j < d2.len() ==> r1[j] == d2[j]);
    match e.value {
        Option::None => {
            lemma_first_space_is(r1, r1.len() as int);
            assert(crate::digits::head_token(r1) =~= d2);
        },
        Option::Some(s) => {
            assert(r1[d2.len() as int] == ' ');
            lemma_first_space_is(r1, d2.len() as int);
            assert(crate::digits::head_token(r1) =~= d2);
            assert(crate::digits::tail_after_space(r1) =~= s);
        },
    }
    lemma_digits_cast(from);
    lemma_digits_cast(e.to);
}


/// The payload texts a graph can carry if the format is to keep them: a
/// present value is nonempty, since the format writes an absent value and an
/// empty one identically.
pub open spec fn text_values_ok(g: GraphView<Seq<char>, Seq<char>>) -> bool {
    &&& forall|i: int|
        0 <= i < g.vertices.len() ==> ((#[trigger] g.vertices[i]).value matches Option::Some(s)
            ==> s.len() > 0)
    &&& forall|i: int, j: int|
        0 <= i < g.vertices.len() && 0 <= j < g.vertices[i].edges.len() ==> ((
        #[trigger] g.vertices[i].edges[j]).value matches Option::Some(s) ==> s.len() > 0)
}

/// One vertex with its edge list forgotten: what the vertex section alone
/// rebuilds.
pub open spec fn stripped_vertex(
    v: VertexView<Seq<char>, Seq<char>>,
) -> VertexView<Seq<char>, Seq<char>> {
    VertexView { id: v.id, value: v.value, edges: Seq::empty() }
}

/// The graph after the first `k` vertex lines: those vertices, no edges yet.
pub open spec fn skeleton_prefix(
    g: GraphView<Seq<char>, Seq<char>>,
    k: int,
) -> GraphView<Seq<char>, Seq<char>> {
    GraphView {
        mode: crate::graph::GraphType::Undirected,
        vertices: g.vertices.take(k).map_values(
            |v: VertexView<Seq<char>, Seq<char>>| stripped_vertex(v),
        ),
    }
}

/// The vertex section has one line per vertex, in order.
proof fn lemma_vertex_lines_index(vs: Seq<VertexView<Seq<char>, Seq<char>>>)
    ensures
        spec_vertex_lines(vs).len() == vs.len(),
        forall|k: int|
            0 <= k < vs.len() ==> #[trigger] spec_vertex_lines(vs)[k] == spec_vertex_line(vs[k]),
    decreases vs.len(),
{
    if vs.len() > 0 {
        lemma_vertex_lines_index(vs.drop_last());
        let l = spec_vertex_lines(vs);
        assert forall|k: int| 0 <= k < vs.len() implies #[trigger] l[k] == spec_vertex_line(
            vs[k],
        ) by {
            if k < vs.len() - 1 {
                assert(l[k] == spec_vertex_lines(vs.drop_last())[k]);
                assert(vs.drop_last()[k] == vs[k]);
            } else {
                assert(l[k] == spec_vertex_line(vs.last()));
            }
        }
    }
}

/// Reading the vertex section rebuilds exactly the stripped vertices, in
/// order, with no failure.
proof fn lemma_deser_vertex_lines(
    g: GraphView<Seq<char>, Seq<char>>,
    lines: Seq<Seq<char>>,
    k: int,
)
    requires
        g.wf(),
        text_values_ok(g),
        0 <= k <= g.vertices.len(),
        lines.len() >= g.vertices.len(),
        forall|i: int|
            0 <= i < g.vertices.len() ==> lines[i] == spec_vertex_line(#[trigger] g.vertices[i]),
    ensures
        spec_deser_from(lines, k, skeleton_prefix(g, k), false) == spec_deser_from(
            lines,
            g.vertices.len() as int,
            skeleton_prefix(g, g.vertices.len() as int),
            false,
        ),
    decreases g.vertices.len() - k,
{
    let n = g.vertices.len() as int;
    if k < n {
        let vk = g.vertices[k];
        lemma_vertex_line_round_trip(vk);
        assert(spec_parse_vertex(lines[k]) == LineParse::Vertex(vk.id, vk.value));
        let pk = skeleton_prefix(g, k);
        assert(forall|t: int|
            0 <= t < k ==> (#[trigger] pk.vertices[t]).id == g.vertices[t].id);
        assert(!pk.contains_id(vk.id)) by {
            if pk.contains_id(vk.id) {
                let t = choose|t: int| 0 <= t < pk.vertices.len() && pk.vertices[t].id == vk.id;
                assert(g.vertices[t].id == g.vertices[k as int].id);
            }
        }
        assert(pk.push_vertex(
            VertexView { id: vk.id, value: vk.value, edges: Seq::empty() },
        ).vertices =~= skeleton_prefix(g, k + 1).vertices) by {
            assert(g.vertices.take(k + 1).drop_last() =~= g.vertices.take(k));
            assert(g.vertices.take(k + 1).last() == vk);
            assert(stripped_vertex(vk) =~= (VertexView {
                id: vk.id,
                value: vk.value,
                edges: Seq::<EdgeDirectionView<Seq<char>>>::empty(),
            }));
        }
        assert(pk.push_vertex(VertexView { id: vk.id, value: vk.value, edges: Seq::empty() })
            =~= skeleton_prefix(g, k + 1));
        lemma_deser_vertex_lines(g, lines, k + 1);
    }
}

/// The shape every edge line of a serialized graph has: the text of a record
/// between two present vertices, with a nonempty value if any.
pub open spec fn edge_line_shape(g: GraphView<Seq<char>, Seq<char>>, l: Seq<char>) -> bool {
    exists|a: DefaultGraphIdType, e: EdgeDirectionView<Seq<char>>|
        #![trigger spec_edge_line(a, e)]
        l == spec_edge_line(a, e) && g.contains_id(a) && g.contains_id(e.to) && (e.value
            matches Option::Some(s) ==> s.len() > 0)
}

/// Every line one vertex contributes to the edge section has that shape.
proof fn lemma_edge_lines_list_elements(
    g: GraphView<Seq<char>, Seq<char>>,
    from: DefaultGraphIdType,
    es: Seq<EdgeDirectionView<Seq<char>>>,
)
    requires
        g.contains_id(from),
        forall|j: int|
            0 <= j < es.len() ==> ((#[trigger] es[j]).value matches Option::Some(s) ==> s.len()
                > 0),
    ensures
        forall|k: int|
            0 <= k < spec_edge_lines_list(g, from, es).len() ==> edge_line_shape(
                g,
                #[trigger] spec_edge_lines_list(g, from, es)[k],
            ),
    decreases es.len(),
{
    if es.len() > 0 {
        assert(forall|j: int|
            0 <= j < es.len() - 1 ==> #[trigger] es.drop_last()[j] == es[j]);
        lemma_edge_lines_list_elements(g, from, es.drop_last());
        let l = spec_edge_lines_list(g, from, es);
        let rest = spec_edge_lines_list(g, from, es.drop_last());
        assert forall|k: int| 0 <= k < l.len() implies edge_line_shape(g, #[trigger] l[k]) by {
            if k < rest.len() {
                assert(l[k] == rest[k]);
            } else {
                let e = es.last();
                assert(l[k] == spec_edge_line(from, e));
                assert(es[es.len() - 1].value matches Option::Some(s) ==> s.len() > 0);
                assert(edge_line_shape(g, spec_edge_line(from, e)));
            }
        }
    }
}

/// Every line of the whole edge section has that shape.
proof fn lemma_edge_lines_elements(
    g: GraphView<Seq<char>, Seq<char>>,
    vs: Seq<VertexView<Seq<char>, Seq<char>>>,
)
    requires
        forall|t: int| 0 <= t < vs.len() ==> g.contains_id((#[trigger] vs[t]).id),
        forall|t: int, j: int|
            0 <= t < vs.len() && 0 <= j < vs[t].edges.len() ==> ((#[trigger] vs[t].edges[j]).value
                matches Option::Some(s) ==> s.len() > 0),
    ensures
        forall|k: int|
            0 <= k < spec_edge_lines(g, vs).len() ==> edge_line_shape(
                g,
                #[trigger] spec_edge_lines(g, vs)[k],
            ),
    decreases vs.len(),
{
    if vs.len() > 0 {
        assert(forall|t: int|
            0 <= t < vs.len() - 1 ==> #[trigger] vs.drop_last()[t] == vs[t]);
        lemma_edge_lines_elements(g, vs.drop_last());
        let v = vs.last();
        assert(forall|j: int|
            0 <= j < v.edges.len() ==> ((#[trigger] v.edges[j]).value matches Option::Some(s)
                ==> s.len() > 0)) by {
            assert(vs[vs.len() - 1] == v);
        }
        lemma_edge_lines_list_elements(g, v.id, v.edges);
        let l = spec_edge_lines(g, vs);
        let rest = spec_edge_lines(g, vs.drop_last());
        let own = spec_edge_lines_list(g, v.id, v.edges);
        assert forall|k: int| 0 <= k < l.len() implies edge_line_shape(g, #[trigger] l[k]) by {
            if k < rest.len() {
                assert(l[k] == rest[k]);
            } else {
                assert(l[k] == own[k - rest.len()]);
            }
        }
    }
}

/// Reading well-shaped edge lines never fails: both endpoints are present,
/// and each insertion keeps the graph well formed with the same vertices.
proof fn lemma_deser_edge_lines(
    g: GraphView<Seq<char>, Seq<char>>,
    lines: Seq<Seq<char>>,
    i: int,
    h: GraphView<Seq<char>, Seq<char>>,
)
    requires
        0 <= i <= lines.len(),
        h.wf(),
        h.mode is Undirected,
        forall|x: DefaultGraphIdType| h.contains_id(x) <==> g.contains_id(x),
        forall|k: int| i <= k < lines.len() ==> edge_line_shape(g, #[trigger] lines[k]),
    ensures
        deser_ok(spec_deser_from(lines, i, h, true)),
        (spec_deser_from(lines, i, h, true) matches SpecDeser::Done(g2) ==> g2.vertices.len()
            == h.vertices.len() && (forall|t: int|
            0 <= t < h.vertices.len() ==> (#[trigger] g2.vertices[t]).id == h.vertices[t].id
                && g2.vertices[t].value == h.vertices[t].value)),
    decreases lines.len() - i,
{
    if i < lines.len() {
        assert(edge_line_shape(g, lines[i]));
        let (a, e) = choose|a: DefaultGraphIdType, e: EdgeDirectionView<Seq<char>>|
            #![trigger spec_edge_line(a, e)]
            lines[i] == spec_edge_line(a, e) && g.contains_id(a) && g.contains_id(e.to) && (e.value
                matches Option::Some(s) ==> s.len() > 0);
        lemma_edge_line_round_trip(a, e);
        assert(spec_parse_edge_line(lines[i]) == EdgeLineParse::Edge(a, e.to, e.value));
        assert(h.contains_id(a) && h.contains_id(e.to));
        let e1 = direction_view(e.to, e.value, true);
        let h1 = spec_insert_dir(h, a, e1);
        lemma_insert_dir_props(h, a, e1);
        let e2 = direction_view(a, e.value, false);
        let h2 = spec_insert_dir(h1, e.to, e2);
        lemma_insert_dir_props(h1, e.to, e2);
        assert(h2 == spec_add_undirected(h, a, e.to, e.value));
        lemma_deser_edge_lines(g, lines, i + 1, h2);
        assert forall|t: int| 0 <= t < h.vertices.len() implies (#[trigger] h2.vertices[t]).id
            == h.vertices[t].id && h2.vertices[t].value == h.vertices[t].value by {
            assert(h1.vertices[t].id == h.vertices[t].id && h1.vertices[t].value
                == h.vertices[t].value);
        }
    }
}

/// Round trip, first half: the serialized text of any well-formed undirected
/// graph whose present values are nonempty (as everything read from the
/// format turns out to be) deserializes without any failure.
pub proof fn lemma_serialized_text_parses(
    g: GraphView<Seq<char>, Seq<char>>,
)
    requires
        g.wf(),
        g.mode is Undirected,
        text_values_ok(g),
    ensures
        deser_ok(spec_deserialize(spec_serialize(g))),
        (spec_deserialize(spec_serialize(g)) matches SpecDeser::Done(g2)
            ==> spec_vertex_lines(g2.vertices) == spec_vertex_lines(g.vertices)),
{
    let n = g.vertices.len() as int;
    let vl = spec_vertex_lines(g.vertices);
    let el = spec_edge_lines(g, g.vertices);
    let lines = spec_serialize(g);
    lemma_vertex_lines_index(g.vertices);
    assert(lines =~= vl + seq![delimiter_chars()] + el);
    assert(lines.len() == n + 1 + el.len());
    assert(forall|i: int| 0 <= i < n ==> #[trigger] lines[i] == vl[i]);
    assert(lines[n] == delimiter_chars());
    assert(forall|k: int| n + 1 <= k < lines.len() ==> #[trigger] lines[k] == el[k - (n + 1)]);
    // the vertex section
    assert(skeleton_prefix(g, 0).vertices =~= Seq::<VertexView<Seq<char>, Seq<char>>>::empty());
    assert(skeleton_prefix(g, 0) =~= crate::codec::empty_undirected());
    lemma_deser_vertex_lines(g, lines, 0);
    let sk = skeleton_prefix(g, n);
    // the delimiter line
    let d = delimiter_chars();
    assert(d[0] == '#' && d.len() == 1);
    assert(d[0] != ' ');
    crate::digits::lemma_first_space_is(d, 1);
    assert(crate::digits::head_token(d) =~= d);
    assert('#' as u32 == 35);
    assert(!crate::digits::is_digit_char(d[0]));
    assert(!crate::digits::valid_u32_token(d));
    assert(spec_parse_vertex(delimiter_chars()) is BadNumber);
    assert(spec_deser_from(lines, n, sk, false) == spec_deser_from(lines, n + 1, sk, true));
    // the edge section
    assert(g.vertices.take(n) =~= g.vertices);
    assert(forall|t: int|
        0 <= t < sk.vertices.len() ==> (#[trigger] sk.vertices[t]).id == g.vertices[t].id);
    assert(sk.wf()) by {
        assert(forall|t: int|
            0 <= t < sk.vertices.len() ==> (#[trigger] sk.vertices[t]).edges.len() == 0);
    }
    assert forall|x: DefaultGraphIdType| sk.contains_id(x) <==> g.contains_id(x) by {
        if sk.contains_id(x) {
            let t = choose|t: int| 0 <= t < sk.vertices.len() && sk.vertices[t].id == x;
            assert(g.vertices[t].id == x);
        }
        if g.contains_id(x) {
            let t = choose|t: int| 0 <= t < g.vertices.len() && g.vertices[t].id == x;
            assert(sk.vertices[t].id == x);
        }
    }
    assert(forall|t: int|
        0 <= t < g.vertices.len() ==> g.contains_id((#[trigger] g.vertices[t]).id));
    lemma_edge_lines_elements(g, g.vertices);
    lemma_deser_edge_lines(g, lines, n + 1, sk);
    let result = spec_deser_from(lines, n + 1, sk, true);
    assert(spec_deserialize(lines) == result);
    match result {
        SpecDeser::Done(g2) => {
            assert forall|t: int| 0 <= t < g.vertices.len() implies (
            #[trigger] g2.vertices[t]).id == g.vertices[t].id && g2.vertices[t].value
                == g.vertices[t].value by {
                assert(sk.vertices[t] == stripped_vertex(g.vertices[t]));
            }
            lemma_vertex_lines_index(g2.vertices);
            assert(spec_vertex_lines(g2.vertices) =~= spec_vertex_lines(g.vertices)) by {
                assert forall|k: int|
                    0 <= k < g.vertices.len() implies #[trigger] spec_vertex_lines(g2.vertices)[k]
                    == spec_vertex_lines(g.vertices)[k] by {
                    assert(spec_vertex_line(g2.vertices[k]) == spec_vertex_line(g.vertices[k]));
                }
            }
        },
        _ => {},
    }
}

} // verus!
