//! The reference graph as text for diagram tools: a Mermaid flowchart (typed references
//! solid, prose links dotted) and a Graphviz DOT digraph (prose links dashed).
use vstd::prelude::*;
use crate::graph::{edge_views, node_addr};
use crate::model::{slash_join, Edge, EdgeView, Graph, Node};
use crate::text::{chars_of, decimal, push_char, push_decimal, str_eq};

verus! {

/// What a character becomes inside a quoted Mermaid label: `"` and `|` as entity codes.
pub open spec fn mermaid_char(c: char) -> Seq<char> {
    if c == '"' {
        "#quot;"@
    } else if c == '|' {
        "#124;"@
    } else {
        seq![c]
    }
}

/// Text made safe for a Mermaid label.
pub open spec fn mermaid_escape(s: Seq<char>) -> Seq<char> {
    s.map_values(|c: char| mermaid_char(c)).flatten()
}

/// What a character becomes inside a quoted DOT string: `"` and `\` behind a backslash.
pub open spec fn dot_char(c: char) -> Seq<char> {
    if c == '"' || c == '\\' {
        seq!['\\', c]
    } else {
        seq![c]
    }
}

/// Text made safe for a quoted DOT string.
pub open spec fn dot_escape(s: Seq<char>) -> Seq<char> {
    s.map_values(|c: char| dot_char(c)).flatten()
}

/// The position of the first node at or after `i` with address `a`.
pub open spec fn node_index_from(nodes: Seq<Node>, a: Seq<char>, i: int) -> Option<int>
    decreases nodes.len() - i,
{
    if i < 0 || i >= nodes.len() {
        None
    } else if node_addr(nodes[i]) == a {
        Some(i)
    } else {
        node_index_from(nodes, a, i + 1)
    }
}

/// The position of the first node with address `a`.
pub open spec fn node_index(nodes: Seq<Node>, a: Seq<char>) -> Option<int> {
    node_index_from(nodes, a, 0)
}

/// The Mermaid id of the node at position `i`: `n<i>`.
pub open spec fn mermaid_id(i: int) -> Seq<char> {
    "n"@ + decimal(i as nat)
}

/// The Mermaid line for the node at position `i`, labelled with its address.
pub open spec fn mermaid_node_line(i: int, n: Node) -> Seq<char> {
    "    "@ + mermaid_id(i) + "[\""@ + mermaid_escape(node_addr(n)) + "\"]\n"@
}

/// The Mermaid line for an edge between two nodes (dotted for a prose link); an edge whose
/// ends are not both nodes has no line.
pub open spec fn mermaid_edge_line(nodes: Seq<Node>, e: EdgeView) -> Seq<char> {
    match (node_index(nodes, e.from), node_index(nodes, e.to)) {
        (Some(i), Some(j)) => "    "@ + mermaid_id(i) + (if e.field == "prose"@ {
            " -.->|"@
        } else {
            " -->|"@
        }) + mermaid_escape(e.field) + "| "@ + mermaid_id(j) + "\n"@,
        _ => Seq::empty(),
    }
}

/// The graph as a Mermaid flowchart: the header, one line per node, one per edge.
pub open spec fn mermaid_text(g: Graph) -> Seq<char> {
    "flowchart LR\n"@ + Seq::new(g.nodes@.len(), |i: int| mermaid_node_line(i, g.nodes@[i])).flatten()
        + edge_views(g.edges@).map_values(|e: EdgeView| mermaid_edge_line(g.nodes@, e)).flatten()
}

/// The DOT line for a node.
pub open spec fn dot_node_line(n: Node) -> Seq<char> {
    "    \""@ + dot_escape(node_addr(n)) + "\";\n"@
}

/// The DOT line for an edge (dashed for a prose link).
pub open spec fn dot_edge_line(e: EdgeView) -> Seq<char> {
    "    \""@ + dot_escape(e.from) + "\" -> \""@ + dot_escape(e.to) + "\" [label=\""@ + dot_escape(
        e.field,
    ) + (if e.field == "prose"@ {
        "\", style=dashed];\n"@
    } else {
        "\"];\n"@
    })
}

/// The graph as a Graphviz digraph: one line per node, one per edge.
pub open spec fn dot_text(g: Graph) -> Seq<char> {
    "digraph company {\n"@ + g.nodes@.map_values(|n: Node| dot_node_line(n)).flatten()
        + edge_views(g.edges@).map_values(|e: EdgeView| dot_edge_line(e)).flatten() + "}\n"@
}

/// Appends `s` made safe for a Mermaid label.
fn push_mermaid_escaped(out: &mut String, s: &str)
    ensures
        final(out)@ == old(out)@ + mermaid_escape(s@),
{
    let v = chars_of(s);
    let ghost start = out@;
    let ghost parts = s@.map_values(|c: char| mermaid_char(c));
    let mut i: usize = 0;
    while i < v.len()
        invariant
            v@ == s@,
            i <= v@.len(),
            parts == s@.map_values(|c: char| mermaid_char(c)),
            out@ == start + parts.take(i as int).flatten(),
        decreases v@.len() - i,
    {
        let c = v[i];
        if c == '"' {
            out.append("#quot;");
        } else if c == '|' {
            out.append("#124;");
        } else {
            push_char(out, c);
        }
        proof {
            assert(parts.take(i + 1) =~= parts.take(i as int).push(parts[i as int]));
            parts.take(i as int).lemma_flatten_push(parts[i as int]);
            assert(parts[i as int] == mermaid_char(c));
            if c != '"' && c != '|' {
                assert(mermaid_char(c) == seq![c]);
            }
        }
        i = i + 1;
        assert(out@ =~= start + parts.take(i as int).flatten());
    }
    assert(parts.take(v@.len() as int) =~= parts);
}

/// Appends `s` made safe for a quoted DOT string.
fn push_dot_escaped(out: &mut String, s: &str)
    ensures
        final(out)@ == old(out)@ + dot_escape(s@),
{
    let v = chars_of(s);
    let ghost start = out@;
    let ghost parts = s@.map_values(|c: char| dot_char(c));
    let mut i: usize = 0;
    while i < v.len()
        invariant
            v@ == s@,
            i <= v@.len(),
            parts == s@.map_values(|c: char| dot_char(c)),
            out@ == start + parts.take(i as int).flatten(),
        decreases v@.len() - i,
    {
        let c = v[i];
        if c == '"' || c == '\\' {
            push_char(out, '\\');
        }
        push_char(out, c);
        proof {
            assert(parts.take(i + 1) =~= parts.take(i as int).push(parts[i as int]));
            parts.take(i as int).lemma_flatten_push(parts[i as int]);
            assert(parts[i as int] == dot_char(c));
        }
        i = i + 1;
        assert(out@ =~= start + parts.take(i as int).flatten());
    }
    assert(parts.take(v@.len() as int) =~= parts);
}

/// The position of the first node with address `a`.
fn find_node(nodes: &Vec<Node>, a: &str) -> (r: Option<usize>)
    ensures
        match r {
            Some(i) => node_index(nodes@, a@) == Some(i as int),
            None => node_index(nodes@, a@) is None,
        },
{
    let mut i: usize = 0;
    while i < nodes.len()
        invariant
            i <= nodes@.len(),
            node_index(nodes@, a@) == node_index_from(nodes@, a@, i as int),
        decreases nodes@.len() - i,
    {
        let addr = slash_join(nodes[i].node_type.as_str(), nodes[i].id.as_str());
        if str_eq(addr.as_str(), a) {
            return Some(i);
        }
        i = i + 1;
    }
    None
}

/// Appends the Mermaid id of the node at position `i`.
fn push_mermaid_id(out: &mut String, i: usize)
    ensures
        final(out)@ == old(out)@ + mermaid_id(i as int),
{
    out.append("n");
    push_decimal(out, i);
    assert(final(out)@ =~= old(out)@ + mermaid_id(i as int));
}

/// The graph as a Mermaid flowchart (`charta graph --format mermaid`): `flowchart LR`, then
/// one node `n<i>["<address>"]` per node in order, then one line per edge between two
/// nodes, `n<i> -->|<field>| n<j>`, dotted (`-.->`) for a prose link.
pub fn to_mermaid(g: &Graph) -> (out: String)
    ensures
        out@ == mermaid_text(*g),
{
    let mut out = String::new();
    out.append("flowchart LR\n");
    let ghost head = out@;
    let ghost nlines = Seq::new(g.nodes@.len(), |i: int| mermaid_node_line(i, g.nodes@[i]));
    let mut i: usize = 0;
    while i < g.nodes.len()
        invariant
            i <= g.nodes@.len(),
            nlines == Seq::new(g.nodes@.len(), |i: int| mermaid_node_line(i, g.nodes@[i])),
            out@ == head + nlines.take(i as int).flatten(),
        decreases g.nodes@.len() - i,
    {
        let ghost before = out@;
        out.append("    ");
        push_mermaid_id(&mut out, i);
        out.append("[\"");
        let addr = slash_join(g.nodes[i].node_type.as_str(), g.nodes[i].id.as_str());
        push_mermaid_escaped(&mut out, addr.as_str());
        out.append("\"]\n");
        proof {
            assert(out@ =~= before + mermaid_node_line(i as int, g.nodes@[i as int]));
            assert(nlines.take(i + 1) =~= nlines.take(i as int).push(nlines[i as int]));
            nlines.take(i as int).lemma_flatten_push(nlines[i as int]);
        }
        i = i + 1;
    }
    assert(nlines.take(g.nodes@.len() as int) =~= nlines);
    let ghost mid = out@;
    let ghost es = edge_views(g.edges@);
    let ghost elines = es.map_values(|e: EdgeView| mermaid_edge_line(g.nodes@, e));
    let mut k: usize = 0;
    while k < g.edges.len()
        invariant
            k <= g.edges@.len(),
            es == edge_views(g.edges@),
            elines == es.map_values(|e: EdgeView| mermaid_edge_line(g.nodes@, e)),
            out@ == mid + elines.take(k as int).flatten(),
        decreases g.edges@.len() - k,
    {
        let ghost before = out@;
        let e = &g.edges[k];
        assert(es[k as int] == e@);
        let from = find_node(&g.nodes, e.from.as_str());
        let to = find_node(&g.nodes, e.to.as_str());
        match (from, to) {
            (Some(fi), Some(ti)) => {
                out.append("    ");
                push_mermaid_id(&mut out, fi);
                if str_eq(e.field.as_str(), "prose") {
                    out.append(" -.->|");
                } else {
                    out.append(" -->|");
                }
                push_mermaid_escaped(&mut out, e.field.as_str());
                out.append("| ");
                push_mermaid_id(&mut out, ti);
                out.append("\n");
            },
            _ => {},
        }
        proof {
            assert(out@ =~= before + mermaid_edge_line(g.nodes@, e@));
            assert(elines.take(k + 1) =~= elines.take(k as int).push(elines[k as int]));
            elines.take(k as int).lemma_flatten_push(elines[k as int]);
        }
        k = k + 1;
    }
    assert(elines.take(g.edges@.len() as int) =~= elines);
    out
}

/// The graph as a Graphviz digraph (`charta graph --format dot`): `digraph company {`, one
/// quoted address per node, one `"<from>" -> "<to>" [label="<field>"]` per edge (with
/// `style=dashed` for a prose link), and `}`.
pub fn to_dot(g: &Graph) -> (out: String)
    ensures
        out@ == dot_text(*g),
{
    let mut out = String::new();
    out.append("digraph company {\n");
    let ghost head = out@;
    let ghost nlines = g.nodes@.map_values(|n: Node| dot_node_line(n));
    let mut i: usize = 0;
    while i < g.nodes.len()
        invariant
            i <= g.nodes@.len(),
            nlines == g.nodes@.map_values(|n: Node| dot_node_line(n)),
            out@ == head + nlines.take(i as int).flatten(),
        decreases g.nodes@.len() - i,
    {
        let ghost before = out@;
        out.append("    \"");
        let addr = slash_join(g.nodes[i].node_type.as_str(), g.nodes[i].id.as_str());
        push_dot_escaped(&mut out, addr.as_str());
        out.append("\";\n");
        proof {
            assert(out@ =~= before + dot_node_line(g.nodes@[i as int]));
            assert(nlines.take(i + 1) =~= nlines.take(i as int).push(nlines[i as int]));
            nlines.take(i as int).lemma_flatten_push(nlines[i as int]);
        }
        i = i + 1;
    }
    assert(nlines.take(g.nodes@.len() as int) =~= nlines);
    let ghost mid = out@;
    let ghost es = edge_views(g.edges@);
    let ghost elines = es.map_values(|e: EdgeView| dot_edge_line(e));
    let mut k: usize = 0;
    while k < g.edges.len()
        invariant
            k <= g.edges@.len(),
            es == edge_views(g.edges@),
            elines == es.map_values(|e: EdgeView| dot_edge_line(e)),
            out@ == mid + elines.take(k as int).flatten(),
        decreases g.edges@.len() - k,
    {
        let ghost before = out@;
        let e = &g.edges[k];
        assert(es[k as int] == e@);
        out.append("    \"");
        push_dot_escaped(&mut out, e.from.as_str());
        out.append("\" -> \"");
        push_dot_escaped(&mut out, e.to.as_str());
        out.append("\" [label=\"");
        push_dot_escaped(&mut out, e.field.as_str());
        if str_eq(e.field.as_str(), "prose") {
            out.append("\", style=dashed];\n");
        } else {
            out.append("\"];\n");
        }
        proof {
            assert(out@ =~= before + dot_edge_line(e@));
            assert(elines.take(k + 1) =~= elines.take(k as int).push(elines[k as int]));
            elines.take(k as int).lemma_flatten_push(elines[k as int]);
        }
        k = k + 1;
    }
    assert(elines.take(g.edges@.len() as int) =~= elines);
    out.append("}\n");
    out
}

} // verus!
