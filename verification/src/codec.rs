//! The line-oriented text codec: vertex lines, a lone `#` delimiter line,
//! then edge lines, each line's fields separated by single spaces.
//!
//! The codec works on lines of text; reading them from and writing them to a
//! stream is the caller's concern.

use vstd::prelude::*;
use vstd::string::StrSliceExecFns;
use vstd::string::StringExecFns;

use crate::digits::{digits_val, head_token, parse_u32_token, u32_chars, u32_to_string, valid_u32_token};
use crate::errors::GraphError;
use crate::graph::{
    direction_view, insert_direction, lemma_insert_dir_props, list_has_target, spec_insert_dir, DefaultGraphIdType, EdgeDirectionType, EdgeDirectionView, Graph, GraphType,
    GraphView, Vertex, VertexView,
};

verus! {

/// The view of an optional textual payload.
pub open spec fn option_chars(o: Option<String>) -> Option<Seq<char>> {
    match o {
        Option::Some(s) => Option::Some(s@),
        Option::None => Option::None,
    }
}

/// The line that separates the vertex section from the edge section.
pub open spec fn delimiter_chars() -> Seq<char> {
    seq!['#']
}

/// What a line yields when read as a vertex record.
pub enum LineParse {
    /// No identifier token at all.
    NoToken,
    /// An identifier token that is not an unsigned integer.
    BadNumber,
    /// Identifier and optional value (the text after the first space).
    Vertex(DefaultGraphIdType, Option<Seq<char>>),
}

/// What a line yields when read as an edge record.
pub enum EdgeLineParse {
    /// A missing identifier token.
    NoToken,
    /// An identifier token that is not an unsigned integer.
    BadNumber,
    /// Both endpoints and the optional value after them.
    Edge(DefaultGraphIdType, DefaultGraphIdType, Option<Seq<char>>),
}

/// A vertex line: leading identifier token, then everything after the first
/// space as the optional value (absent when empty).
pub open spec fn spec_parse_vertex(line: Seq<char>) -> LineParse {
    let tok = head_token(line);
    let rest = crate::digits::tail_after_space(line);
    if tok.len() == 0 {
        LineParse::NoToken
    } else if !valid_u32_token(tok) {
        LineParse::BadNumber
    } else {
        LineParse::Vertex(
            digits_val(tok) as DefaultGraphIdType,
            if rest.len() == 0 {
                Option::None
            } else {
                Option::Some(rest)
            },
        )
    }
}

/// An edge line: two identifier tokens, then everything after the second
/// space as the optional value (absent when empty).
pub open spec fn spec_parse_edge_line(line: Seq<char>) -> EdgeLineParse {
    let tok1 = head_token(line);
    let r1 = crate::digits::tail_after_space(line);
    if tok1.len() == 0 {
        EdgeLineParse::NoToken
    } else if !valid_u32_token(tok1) {
        EdgeLineParse::BadNumber
    } else {
        let tok2 = head_token(r1);
        let r2 = crate::digits::tail_after_space(r1);
        if tok2.len() == 0 {
            EdgeLineParse::NoToken
        } else if !valid_u32_token(tok2) {
            EdgeLineParse::BadNumber
        } else {
            EdgeLineParse::Edge(
                digits_val(tok1) as DefaultGraphIdType,
                digits_val(tok2) as DefaultGraphIdType,
                if r2.len() == 0 {
                    Option::None
                } else {
                    Option::Some(r2)
                },
            )
        }
    }
}

/// Splits a line at its first space: the token before it and the remainder
/// after it (empty when there is no space).
fn split_first_space<'a>(line: &'a str) -> (r: (&'a str, &'a str))
    ensures
        r.0@ == head_token(line@),
        r.1@ == crate::digits::tail_after_space(line@),
{
    let len = line.unicode_len();
    let mut i: usize = 0;
    while i < len
        invariant
            len == line@.len(),
            i <= len,
            forall|j: int| 0 <= j < i ==> line@[j] != ' ',
        decreases len - i,
    {
        if line.get_char(i) == ' ' {
            proof {
                crate::digits::lemma_first_space_is(line@, i as int);
            }
            let tok = line.substring_char(0, i);
            let rest = line.substring_char(i + 1, len);
            proof {
                assert(tok@ =~= head_token(line@));
                assert(rest@ =~= crate::digits::tail_after_space(line@));
            }
            return (tok, rest);
        }
        i += 1;
    }
    proof {
        crate::digits::lemma_first_space_is(line@, len as int);
    }
    let tok = line.substring_char(0, len);
    let rest = line.substring_char(len, len);
    proof {
        assert(tok@ =~= head_token(line@));
        assert(rest@ =~= Seq::<char>::empty());
        assert(rest@ =~= crate::digits::tail_after_space(line@));
    }
    (tok, rest)
}

/// The views of a sequence of strings.
pub open spec fn string_views(ss: Seq<String>) -> Seq<Seq<char>> {
    ss.map_values(|s: String| s@)
}

/// One adjacency record with its payload taken as text.
pub open spec fn char_edge(e: EdgeDirectionView<String>) -> EdgeDirectionView<Seq<char>> {
    EdgeDirectionView { to: e.to, value: option_chars(e.value), strong: e.strong }
}

/// One vertex with its payloads taken as text.
pub open spec fn char_vertex(v: VertexView<String, String>) -> VertexView<Seq<char>, Seq<char>> {
    VertexView {
        id: v.id,
        value: option_chars(v.value),
        edges: v.edges.map_values(|e: EdgeDirectionView<String>| char_edge(e)),
    }
}

/// A whole string graph with its payloads taken as text: the model the codec
/// contracts are stated over.
pub open spec fn char_graph(g: GraphView<String, String>) -> GraphView<Seq<char>, Seq<char>> {
    GraphView {
        mode: g.mode,
        vertices: g.vertices.map_values(|v: VertexView<String, String>| char_vertex(v)),
    }
}

/// Taking payloads as text changes no identifier, membership, position or
/// list shape of a well-formed graph.
pub proof fn lemma_char_graph_frame(g: GraphView<String, String>)
    requires
        g.wf(),
    ensures
        char_graph(g).wf(),
        char_graph(g).vertices.len() == g.vertices.len(),
        forall|x: DefaultGraphIdType| char_graph(g).contains_id(x) <==> g.contains_id(x),
        forall|x: DefaultGraphIdType|
            g.contains_id(x) ==> #[trigger] char_graph(g).vertex_ix(x) == g.vertex_ix(x),
        forall|x: DefaultGraphIdType|
            g.contains_id(x) ==> #[trigger] char_graph(g).edges_of(x) == g.edges_of(x).map_values(
                |e: EdgeDirectionView<String>| char_edge(e),
            ) && char_graph(g).value_of(x) == option_chars(g.value_of(x)),
{
    let gc = char_graph(g);
    assert(forall|k: int|
        0 <= k < g.vertices.len() ==> (#[trigger] gc.vertices[k]).id == g.vertices[k].id);
    assert forall|k: int| 0 <= k < g.vertices.len() implies (#[trigger] gc.vertices[k]).wf() by {
        assert(g.vertices[k].wf());
        assert(forall|t: int|
            0 <= t < g.vertices[k].edges.len() ==> (#[trigger] gc.vertices[k].edges[t]).to
                == g.vertices[k].edges[t].to);
    }
    assert(gc.wf());
    assert forall|x: DefaultGraphIdType| gc.contains_id(x) implies g.contains_id(x) by {
        let k = choose|k: int| 0 <= k < gc.vertices.len() && gc.vertices[k].id == x;
        assert(g.vertices[k].id == x);
    }
    assert forall|x: DefaultGraphIdType| g.contains_id(x) implies gc.contains_id(x) by {
        let k = choose|k: int| 0 <= k < g.vertices.len() && g.vertices[k].id == x;
        assert(gc.vertices[k].id == x);
    }
    assert forall|x: DefaultGraphIdType| g.contains_id(x) implies #[trigger] gc.vertex_ix(x)
        == g.vertex_ix(x) by {
        let k = choose|k: int| 0 <= k < g.vertices.len() && g.vertices[k].id == x;
        g.lemma_vertex_ix_is(x, k);
        assert(gc.vertices[k].id == x);
        gc.lemma_vertex_ix_is(x, k);
    }
}

/// Taking payloads as text commutes with appending a vertex.
pub proof fn lemma_char_graph_push(g: GraphView<String, String>, v: VertexView<String, String>)
    ensures
        char_graph(g.push_vertex(v)) == char_graph(g).push_vertex(char_vertex(v)),
{
    assert(char_graph(g.push_vertex(v)).vertices =~= char_graph(g).push_vertex(
        char_vertex(v),
    ).vertices);
    assert(char_graph(g.push_vertex(v)) =~= char_graph(g).push_vertex(char_vertex(v)));
}

/// Taking payloads as text commutes with inserting one adjacency record.
pub proof fn lemma_char_graph_insert(
    g: GraphView<String, String>,
    from: DefaultGraphIdType,
    e: EdgeDirectionView<String>,
)
    requires
        g.wf(),
        g.contains_id(from),
    ensures
        char_graph(spec_insert_dir(g, from, e)) == spec_insert_dir(
            char_graph(g),
            from,
            char_edge(e),
        ),
{
    let gc = char_graph(g);
    lemma_char_graph_frame(g);
    let i = g.vertex_ix(from);
    let es = g.edges_of(from);
    let esc = gc.edges_of(from);
    assert(esc == es.map_values(|x: EdgeDirectionView<String>| char_edge(x)));
    assert forall|x: DefaultGraphIdType| list_has_target(es, x) implies list_has_target(
        esc,
        x,
    ) by {
        let k = choose|k: int| 0 <= k < es.len() && es[k].to == x;
        assert(esc[k].to == x);
    }
    assert forall|x: DefaultGraphIdType| list_has_target(esc, x) implies list_has_target(
        es,
        x,
    ) by {
        let k = choose|k: int| 0 <= k < esc.len() && esc[k].to == x;
        assert(es[k].to == x);
    }
    if list_has_target(es, e.to) {
        assert(insert_direction(es, e) == es);
        assert(insert_direction(esc, char_edge(e)) == esc);
        assert(char_graph(g.with_edges(from, es)).vertices =~= gc.with_edges(from, esc).vertices) by {
            assert(g.with_edges(from, es).vertices =~= g.vertices);
            assert(gc.with_edges(from, esc).vertices =~= gc.vertices);
        }
        assert(char_graph(spec_insert_dir(g, from, e)) =~= spec_insert_dir(
            gc,
            from,
            char_edge(e),
        ));
    } else {
        let es2 = es.push(e);
        let esc2 = esc.push(char_edge(e));
        assert(es2.map_values(|x: EdgeDirectionView<String>| char_edge(x)) =~= esc2);
        assert(char_graph(g.with_edges(from, es2)).vertices =~= gc.with_edges(
            from,
            esc2,
        ).vertices) by {
            assert(forall|k: int|
                0 <= k < g.vertices.len() && k != i ==> #[trigger] g.with_edges(
                    from,
                    es2,
                ).vertices[k] == g.vertices[k]);
            assert(char_vertex(g.with_edges(from, es2).vertices[i]) =~= gc.with_edges(
                from,
                esc2,
            ).vertices[i]);
        }
        assert(char_graph(spec_insert_dir(g, from, e)) =~= spec_insert_dir(
            gc,
            from,
            char_edge(e),
        ));
    }
}

/// The text of one vertex line: the identifier, then a space and the value
/// when one is present.
pub open spec fn spec_vertex_line(v: VertexView<Seq<char>, Seq<char>>) -> Seq<char> {
    u32_chars(v.id as int) + match v.value {
        Option::Some(s) => seq![' '] + s,
        Option::None => Seq::empty(),
    }
}

/// The text of one edge line: both identifiers, then a space and the value
/// when one is present.
pub open spec fn spec_edge_line(
    from: DefaultGraphIdType,
    e: EdgeDirectionView<Seq<char>>,
) -> Seq<char> {
    u32_chars(from as int) + seq![' '] + u32_chars(e.to as int) + match e.value {
        Option::Some(s) => seq![' '] + s,
        Option::None => Seq::empty(),
    }
}

/// The vertex lines of a vertex sequence, in storage order.
pub open spec fn spec_vertex_lines(vs: Seq<VertexView<Seq<char>, Seq<char>>>) -> Seq<Seq<char>>
    decreases vs.len(),
{
    if vs.len() == 0 {
        Seq::empty()
    } else {
        spec_vertex_lines(vs.drop_last()) + seq![spec_vertex_line(vs.last())]
    }
}

/// The edge lines one vertex contributes: one line per strong record whose
/// target is present; weak mirrors and dangling records are skipped.
pub open spec fn spec_edge_lines_list(
    g: GraphView<Seq<char>, Seq<char>>,
    from: DefaultGraphIdType,
    es: Seq<EdgeDirectionView<Seq<char>>>,
) -> Seq<Seq<char>>
    decreases es.len(),
{
    if es.len() == 0 {
        Seq::empty()
    } else {
        spec_edge_lines_list(g, from, es.drop_last()) + (if es.last().strong && g.contains_id(
            es.last().to,
        ) {
            seq![spec_edge_line(from, es.last())]
        } else {
            Seq::empty()
        })
    }
}

/// The edge lines of a vertex sequence, grouped by source vertex in storage
/// order.
pub open spec fn spec_edge_lines(
    g: GraphView<Seq<char>, Seq<char>>,
    vs: Seq<VertexView<Seq<char>, Seq<char>>>,
) -> Seq<Seq<char>>
    decreases vs.len(),
{
    if vs.len() == 0 {
        Seq::empty()
    } else {
        spec_edge_lines(g, vs.drop_last()) + spec_edge_lines_list(g, vs.last().id, vs.last().edges)
    }
}

/// The whole serialized document: vertex lines, the delimiter, edge lines.
pub open spec fn spec_serialize(g: GraphView<Seq<char>, Seq<char>>) -> Seq<Seq<char>> {
    spec_vertex_lines(g.vertices) + seq![delimiter_chars()] + spec_edge_lines(g, g.vertices)
}

impl Graph<String, String> {
    /// Reads one vertex line: the leading token is the identifier, the rest
    /// (if nonempty) the value. A missing token is `ParseVertexId`, a
    /// non-numeric one `WrongVertexIdType`, each carrying the offending line.
    pub(crate) fn parse_vertex(line: &str) -> (r: Result<Vertex<String, String>, GraphError>)
        ensures
            spec_parse_vertex(line@) is NoToken ==> (r matches Err(e) && (e
                matches GraphError::ParseVertexId(s) && s@ == line@)),
            spec_parse_vertex(line@) is BadNumber ==> (r matches Err(e) && (e
                matches GraphError::WrongVertexIdType(s) && s@ == line@)),
            spec_parse_vertex(line@) matches LineParse::Vertex(id, val) ==> (r matches Ok(v)
                && v@.id == id && option_chars(v@.value) == val && v@.edges.len() == 0 && v@.wf()),
    {
        let (token, rest) = split_first_space(line);
        if token.unicode_len() == 0 {
            return Err(GraphError::ParseVertexId(line.to_owned()));
        }
        match parse_u32_token(token) {
            None => Err(GraphError::WrongVertexIdType(line.to_owned())),
            Some(id) => {
                let value = if rest.unicode_len() == 0 {
                    None
                } else {
                    Some(rest.to_owned())
                };
                Ok(Vertex::new(id, value))
            },
        }
    }

    /// Whether a line is exactly the section delimiter `#`.
    pub(crate) fn is_delimiter(line: &str) -> (r: bool)
        ensures
            r == (line@ == delimiter_chars()),
    {
        let len = line.unicode_len();
        if len != 1 {
            proof {
                if line@ == delimiter_chars() {
                    assert(line@.len() == 1);
                }
            }
            return false;
        }
        if line.get_char(0) == '#' {
            proof {
                assert(line@ =~= delimiter_chars());
            }
            true
        } else {
            proof {
                if line@ == delimiter_chars() {
                    assert(line@[0] == '#');
                }
            }
            false
        }
    }

    /// Reads one edge line against the graph built so far: two identifier
    /// tokens, then the optional value. Both endpoints must already be
    /// present; whichever is missing is reported as `VertexNotFound`.
    pub(crate) fn parse_edge(line: &str, graph: &Graph<String, String>) -> (r: Result<
        (DefaultGraphIdType, DefaultGraphIdType, Option<String>),
        GraphError,
    >)
        ensures
            spec_parse_edge_line(line@) is NoToken ==> (r matches Err(e) && (e
                matches GraphError::ParseVertexId(s) && s@ == line@)),
            spec_parse_edge_line(line@) is BadNumber ==> (r matches Err(e) && (e
                matches GraphError::WrongVertexIdType(s) && s@ == line@)),
            spec_parse_edge_line(line@) matches EdgeLineParse::Edge(a, b, val) ==> {
                &&& !graph@.contains_id(a) ==> (r matches Err(e) && e
                    == GraphError::VertexNotFound(a))
                &&& graph@.contains_id(a) && !graph@.contains_id(b) ==> (r matches Err(e) && e
                    == GraphError::VertexNotFound(b))
                &&& graph@.contains_id(a) && graph@.contains_id(b) ==> (r matches Ok(t) && t.0 == a
                    && t.1 == b && option_chars(t.2) == val)
            },
    {
        let (token1, rest1) = split_first_space(line);
        if token1.unicode_len() == 0 {
            return Err(GraphError::ParseVertexId(line.to_owned()));
        }
        let first_vertex_id = match parse_u32_token(token1) {
            None => {
                return Err(GraphError::WrongVertexIdType(line.to_owned()));
            },
            Some(id) => id,
        };
        let (token2, rest2) = split_first_space(rest1);
        if token2.unicode_len() == 0 {
            return Err(GraphError::ParseVertexId(line.to_owned()));
        }
        let second_vertex_id = match parse_u32_token(token2) {
            None => {
                return Err(GraphError::WrongVertexIdType(line.to_owned()));
            },
            Some(id) => id,
        };
        let edge_value = if rest2.unicode_len() == 0 {
            None
        } else {
            Some(rest2.to_owned())
        };
        if !graph.contains_vertex(first_vertex_id) {
            return Err(GraphError::VertexNotFound(first_vertex_id));
        }
        if !graph.contains_vertex(second_vertex_id) {
            return Err(GraphError::VertexNotFound(second_vertex_id));
        }
        Ok((first_vertex_id, second_vertex_id, edge_value))
    }

    /// Writes the graph as the lines of the text format: one line per vertex
    /// in storage order, the delimiter, then one line per strong edge record
    /// whose target is present. Weak mirrors are skipped, so an undirected
    /// edge is written once; dangling records are filtered out.
    pub fn serialize(&self) -> (lines: Vec<String>)
        requires
            self@.wf(),
        ensures
            string_views(lines@) == spec_serialize(char_graph(self@)),
    {
        let ghost gc = char_graph(self@);
        let mut lines: Vec<String> = Vec::new();
        let n = self.vertices.len();
        let mut i: usize = 0;
        proof {
            assert(string_views(lines@) =~= spec_vertex_lines(gc.vertices.take(0)));
        }
        while i < n
            invariant
                gc == char_graph(self@),
                self@.wf(),
                n == self.vertices@.len(),
                i <= n,
                gc.vertices.len() == n,
                string_views(lines@) == spec_vertex_lines(gc.vertices.take(i as int)),
            decreases n - i,
        {
            proof {
                assert(self@.vertices[i as int] == self.vertices@[i as int]@);
                assert(gc.vertices[i as int] == char_vertex(self@.vertices[i as int]));
            }
            let mut line = u32_to_string(self.vertices[i].id);
            if let Some(val) = &self.vertices[i].value {
                proof {
                    reveal_strlit(" ");
                }
                line.append(" ");
                line.append(val.as_str());
            }
            proof {
                assert(line@ =~= spec_vertex_line(gc.vertices[i as int]));
            }
            lines.push(line);
            proof {
                assert(gc.vertices.take(i + 1).drop_last() =~= gc.vertices.take(i as int));
                assert(gc.vertices.take(i + 1).last() == gc.vertices[i as int]);
                assert(string_views(lines@) =~= spec_vertex_lines(gc.vertices.take(i + 1)));
            }
            i += 1;
        }
        proof {
            reveal_strlit("#");
            assert(gc.vertices.take(n as int) =~= gc.vertices);
        }
        lines.push("#".to_owned());
        proof {
            assert(("#")@ =~= delimiter_chars());
            assert(spec_edge_lines(gc, gc.vertices.take(0)) =~= Seq::<Seq<char>>::empty());
            assert(string_views(lines@) =~= spec_vertex_lines(gc.vertices) + seq![
                delimiter_chars(),
            ] + spec_edge_lines(gc, gc.vertices.take(0)));
        }
        let mut i: usize = 0;
        while i < n
            invariant
                gc == char_graph(self@),
                self@.wf(),
                n == self.vertices@.len(),
                i <= n,
                gc.vertices.len() == n,
                string_views(lines@) == spec_vertex_lines(gc.vertices) + seq![delimiter_chars()]
                    + spec_edge_lines(gc, gc.vertices.take(i as int)),
            decreases n - i,
        {
            let from_id = self.vertices[i].id;
            let m = self.vertices[i].edge_directions.len();
            let mut j: usize = 0;
            proof {
                assert(self@.vertices[i as int] == self.vertices@[i as int]@);
                assert(gc.vertices[i as int] == char_vertex(self@.vertices[i as int]));
                assert(spec_edge_lines_list(gc, from_id, gc.vertices[i as int].edges.take(0)) =~= Seq::<
                    Seq<char>,
                >::empty());
            }
            while j < m
                invariant
                    gc == char_graph(self@),
                    self@.wf(),
                    n == self.vertices@.len(),
                    i < n,
                    gc.vertices.len() == n,
                    m == self.vertices@[i as int].edge_directions@.len(),
                    m == gc.vertices[i as int].edges.len(),
                    j <= m,
                    from_id == gc.vertices[i as int].id,
                    gc.vertices[i as int] == char_vertex(self@.vertices[i as int]),
                    string_views(lines@) == spec_vertex_lines(gc.vertices) + seq![
                        delimiter_chars(),
                    ] + spec_edge_lines(gc, gc.vertices.take(i as int)) + spec_edge_lines_list(
                        gc,
                        from_id,
                        gc.vertices[i as int].edges.take(j as int),
                    ),
                decreases m - j,
            {
                let ghost ec = gc.vertices[i as int].edges[j as int];
                proof {
                    assert(self@.vertices[i as int] == self.vertices@[i as int]@);
                    assert(self@.vertices[i as int].edges[j as int] == self.vertices@[i
                        as int].edge_directions@[j as int]@);
                    assert(ec == char_edge(self@.vertices[i as int].edges[j as int]));
                    assert(gc.vertices[i as int].edges.take(j + 1).drop_last() =~= gc.vertices[i
                        as int].edges.take(j as int));
                    assert(gc.vertices[i as int].edges.take(j + 1).last() == ec);
                    lemma_char_graph_frame(self@);
                }
                let strong = match self.vertices[i].edge_directions[j].kind {
                    EdgeDirectionType::Strong => true,
                    EdgeDirectionType::Weak => false,
                };
                let to_id = self.vertices[i].edge_directions[j].to_vertex_id;
                if strong && self.contains_vertex(to_id) {
                    let mut line = u32_to_string(from_id);
                    proof {
                        reveal_strlit(" ");
                    }
                    line.append(" ");
                    let to_text = u32_to_string(to_id);
                    line.append(to_text.as_str());
                    let value_opt = &*self.vertices[i].edge_directions[j].value;
                    if let Some(ev) = value_opt {
                        line.append(" ");
                        line.append(ev.as_str());
                    }
                    proof {
                        assert(ec.strong && gc.contains_id(ec.to));
                        assert(line@ =~= spec_edge_line(from_id, ec));
                    }
                    let ghost lines0 = lines@;
                    lines.push(line);
                    proof {
                        assert(string_views(lines@) =~= string_views(lines0) + seq![line@]);
                        assert(spec_edge_lines_list(
                            gc,
                            from_id,
                            gc.vertices[i as int].edges.take(j + 1),
                        ) =~= spec_edge_lines_list(
                            gc,
                            from_id,
                            gc.vertices[i as int].edges.take(j as int),
                        ) + seq![spec_edge_line(from_id, ec)]);
                        assert(string_views(lines@) =~= spec_vertex_lines(gc.vertices) + seq![
                            delimiter_chars(),
                        ] + spec_edge_lines(gc, gc.vertices.take(i as int))
                            + spec_edge_lines_list(
                            gc,
                            from_id,
                            gc.vertices[i as int].edges.take(j + 1),
                        ));
                    }
                } else {
                    proof {
                        assert(!(ec.strong && gc.contains_id(ec.to)));
                        assert(string_views(lines@) =~= spec_vertex_lines(gc.vertices) + seq![
                            delimiter_chars(),
                        ] + spec_edge_lines(gc, gc.vertices.take(i as int))
                            + spec_edge_lines_list(
                            gc,
                            from_id,
                            gc.vertices[i as int].edges.take(j + 1),
                        ));
                    }
                }
                j += 1;
            }
            proof {
                assert(gc.vertices[i as int].edges.take(m as int) =~= gc.vertices[i as int].edges);
                assert(gc.vertices.take(i + 1).drop_last() =~= gc.vertices.take(i as int));
                assert(gc.vertices.take(i + 1).last() == gc.vertices[i as int]);
                assert(string_views(lines@) =~= spec_vertex_lines(gc.vertices) + seq![
                    delimiter_chars(),
                ] + spec_edge_lines(gc, gc.vertices.take(i + 1)));
            }
            i += 1;
        }
        proof {
            assert(gc.vertices.take(n as int) =~= gc.vertices);
            assert(string_views(lines@) =~= spec_serialize(gc));
        }
        lines
    }

    /// Rebuilds a graph from lines of the text format. Vertex lines come
    /// first; a lone `#` switches to edge lines; the graph built is always
    /// undirected. Duplicate vertex identifiers, undeclared edge endpoints
    /// and malformed tokens fail exactly as `spec_deserialize` says.
    pub fn deserialize(lines: &Vec<String>) -> (r: Result<Graph<String, String>, GraphError>)
        ensures
            (match spec_deserialize(string_views(lines@)) {
                SpecDeser::Done(gv) => r matches Ok(g2) && g2@.wf() && g2@.mode is Undirected
                    && char_graph(g2@) == gv,
                SpecDeser::VertexExists(id) => r matches Err(e) && e
                    == GraphError::VertexAlreadyExist(id),
                SpecDeser::NotFound(id) => r matches Err(e) && e == GraphError::VertexNotFound(id),
                SpecDeser::NoToken(l) => r matches Err(e) && (e matches GraphError::ParseVertexId(s)
                    && s@ == l),
                SpecDeser::BadNumber(l) => r matches Err(e) && (e
                    matches GraphError::WrongVertexIdType(s) && s@ == l),
            }),
    {
        let ghost lv = string_views(lines@);
        let mut graph: Graph<String, String> = Graph::new(GraphType::Undirected);
        let mut in_edges = false;
        let n = lines.len();
        let mut i: usize = 0;
        proof {
            assert(char_graph(graph@) =~= (GraphView::<Seq<char>, Seq<char>> {
                mode: GraphType::Undirected,
                vertices: Seq::empty(),
            }));
        }
        while i < n
            invariant
                n == lines@.len(),
                lv == string_views(lines@),
                i <= n,
                graph@.wf(),
                graph@.mode is Undirected,
                spec_deser_from(lv, i as int, char_graph(graph@), in_edges) == spec_deserialize(
                    lv,
                ),
            decreases n - i,
        {
            assert(lines@[i as int]@ == lv[i as int]);
            let ghost gc = char_graph(graph@);
            proof {
                lemma_char_graph_frame(graph@);
            }
            let ghost g0 = graph@;
            if !in_edges {
                match Graph::parse_vertex(lines[i].as_str()) {
                    Ok(vertex) => {
                        let ghost vv = vertex@;
                        proof {
                            assert(spec_parse_vertex(lv[i as int]) is Vertex);
                        }
                        match graph.add_vertex(vertex) {
                            Ok(_) => {
                                proof {
                                    lemma_char_graph_push(g0, vv);
                                    let pushed = VertexView::<Seq<char>, Seq<char>> {
                                        id: vv.id,
                                        value: option_chars(vv.value),
                                        edges: Seq::empty(),
                                    };
                                    assert(char_vertex(vv) =~= pushed);
                                    assert(char_graph(graph@) == gc.push_vertex(pushed));
                                    assert(spec_deser_from(lv, i + 1, char_graph(graph@), false)
                                        == spec_deser_from(lv, i as int, gc, false));
                                }
                            },
                            Err(e) => {
                                proof {
                                    assert(gc.contains_id(vv.id));
                                    assert(spec_deser_from(lv, i as int, gc, false)
                                        == SpecDeser::VertexExists(vv.id));
                                }
                                return Err(e);
                            },
                        }
                    },
                    Err(error) => {
                        if Graph::is_delimiter(lines[i].as_str()) {
                            proof {
                                assert(spec_deser_from(lv, i + 1, gc, true) == spec_deser_from(
                                    lv,
                                    i as int,
                                    gc,
                                    false,
                                ));
                            }
                            in_edges = true;
                        } else {
                            proof {
                                assert(lv[i as int] != delimiter_chars());
                            }
                            return Err(error);
                        }
                    },
                }
            } else {
                match Graph::parse_edge(lines[i].as_str(), &graph) {
                    Ok((first_id, second_id, value)) => {
                        let ghost val = option_chars(value);
                        proof {
                            assert(spec_parse_edge_line(lv[i as int]) matches EdgeLineParse::Edge(
                                a,
                                b,
                                v,
                            ) && a == first_id && b == second_id && v == val);
                            assert(g0.contains_id(first_id) && g0.contains_id(second_id));
                        }
                        match graph.add_edge(first_id, second_id, value) {
                            Ok(_) => {
                                proof {
                                    let e1 = direction_view(second_id, value, true);
                                    let g1 = spec_insert_dir(g0, first_id, e1);
                                    lemma_insert_dir_props(g0, first_id, e1);
                                    let e2 = direction_view(first_id, value, false);
                                    assert(graph@ == spec_insert_dir(g1, second_id, e2));
                                    lemma_char_graph_insert(g0, first_id, e1);
                                    lemma_char_graph_insert(g1, second_id, e2);
                                    assert(char_edge(e1) =~= direction_view(second_id, val, true));
                                    assert(char_edge(e2) =~= direction_view(first_id, val, false));
                                    assert(char_graph(graph@) == spec_add_undirected(
                                        gc,
                                        first_id,
                                        second_id,
                                        val,
                                    ));
                                    assert(spec_deser_from(lv, i + 1, char_graph(graph@), true)
                                        == spec_deser_from(lv, i as int, gc, true));
                                }
                            },
                            Err(e) => {
                                proof {
                                    let e1 = direction_view(second_id, value, true);
                                    lemma_insert_dir_props(g0, first_id, e1);
                                    assert(spec_insert_dir(g0, first_id, e1).contains_id(
                                        second_id,
                                    ));
                                    assert(false);
                                }
                                return Err(e);
                            },
                        }
                    },
                    Err(e) => {
                        return Err(e);
                    },
                }
            }
            i += 1;
        }
        Ok(graph)
    }
}

/// The outcome the deserializer is specified by: the finished (text-level)
/// graph, or the exact failure and what it reports.
pub enum SpecDeser {
    /// All lines consumed; the graph built.
    Done(GraphView<Seq<char>, Seq<char>>),
    /// A vertex line repeated an identifier.
    VertexExists(DefaultGraphIdType),
    /// An edge line referenced an undeclared endpoint.
    NotFound(DefaultGraphIdType),
    /// A line with a missing identifier token.
    NoToken(Seq<char>),
    /// A line with a non-numeric identifier token.
    BadNumber(Seq<char>),
}

/// One undirected edge insertion at the text level: the strong record into
/// `a`'s list, the weak mirror into `b`'s, sharing the payload.
pub open spec fn spec_add_undirected(
    g: GraphView<Seq<char>, Seq<char>>,
    a: DefaultGraphIdType,
    b: DefaultGraphIdType,
    val: Option<Seq<char>>,
) -> GraphView<Seq<char>, Seq<char>> {
    spec_insert_dir(spec_insert_dir(g, a, direction_view(b, val, true)), b, direction_view(a, val, false))
}

/// The deserializer, line by line from line `i`, carrying the graph built so
/// far and whether the delimiter has been passed.
pub open spec fn spec_deser_from(
    lines: Seq<Seq<char>>,
    i: int,
    g: GraphView<Seq<char>, Seq<char>>,
    in_edges: bool,
) -> SpecDeser
    decreases lines.len() - i,
{
    if i < 0 || i >= lines.len() {
        SpecDeser::Done(g)
    } else {
        let line = lines[i];
        if !in_edges {
            match spec_parse_vertex(line) {
                LineParse::Vertex(id, val) => if g.contains_id(id) {
                    SpecDeser::VertexExists(id)
                } else {
                    spec_deser_from(
                        lines,
                        i + 1,
                        g.push_vertex(VertexView { id, value: val, edges: Seq::empty() }),
                        false,
                    )
                },
                LineParse::NoToken => if line == delimiter_chars() {
                    spec_deser_from(lines, i + 1, g, true)
                } else {
                    SpecDeser::NoToken(line)
                },
                LineParse::BadNumber => if line == delimiter_chars() {
                    spec_deser_from(lines, i + 1, g, true)
                } else {
                    SpecDeser::BadNumber(line)
                },
            }
        } else {
            match spec_parse_edge_line(line) {
                EdgeLineParse::Edge(a, b, val) => if !g.contains_id(a) {
                    SpecDeser::NotFound(a)
                } else if !g.contains_id(b) {
                    SpecDeser::NotFound(b)
                } else {
                    spec_deser_from(lines, i + 1, spec_add_undirected(g, a, b, val), true)
                },
                EdgeLineParse::NoToken => SpecDeser::NoToken(line),
                EdgeLineParse::BadNumber => SpecDeser::BadNumber(line),
            }
        }
    }
}

/// The empty undirected graph the deserializer starts from.
pub open spec fn empty_undirected() -> GraphView<Seq<char>, Seq<char>> {
    GraphView { mode: GraphType::Undirected, vertices: Seq::empty() }
}

/// The whole deserializer: an empty undirected graph, all lines, vertex
/// section first.
pub open spec fn spec_deserialize(lines: Seq<Seq<char>>) -> SpecDeser {
    spec_deser_from(lines, 0, empty_undirected(), false)
}


/// Whether a deserializer outcome is a successfully built graph.
pub open spec fn deser_ok(d: SpecDeser) -> bool {
    d is Done
}

} // verus!
