//! The reference graph: nodes, resolved edges, orphans and backlinks.
use vstd::prelude::*;
use crate::model::{
    addr_of, address, addresses, slash_join, Edge, EdgeView, Graph, Node, Resource, Workspace,
};
use crate::text::str_eq;
use crate::validate::{contains_str, resource_addresses};
use crate::yaml::{value_seq, value_str, YamlValue};

verus! {

/// The edge `from --field--> to` if `to` is the address of a resource, else nothing.
pub open spec fn edge_if_resolved(
    addrs: Seq<Seq<char>>,
    from: Seq<char>,
    to: Seq<char>,
    field: Seq<char>,
) -> Seq<EdgeView> {
    if addrs.contains(to) {
        seq![EdgeView { from, to, field }]
    } else {
        Seq::empty()
    }
}

/// The edge for a reference value `v` (when it is a string that resolves).
pub open spec fn value_edges(
    addrs: Seq<Seq<char>>,
    from: Seq<char>,
    field: Seq<char>,
    v: YamlValue,
) -> Seq<EdgeView> {
    match value_str(v) {
        Some(s) => edge_if_resolved(addrs, from, s, field),
        None => Seq::empty(),
    }
}

/// The edges of a single-reference field of `r`.
pub open spec fn single_field_edges(r: Resource, addrs: Seq<Seq<char>>, field: Seq<char>) -> Seq<
    EdgeView,
> {
    match r.fields.get_spec(field) {
        Some(v) => value_edges(addrs, addr_of(r), field, v),
        None => Seq::empty(),
    }
}

/// The edges of a list-of-references field of `r`.
pub open spec fn list_field_edges(r: Resource, addrs: Seq<Seq<char>>, field: Seq<char>) -> Seq<
    EdgeView,
> {
    match r.fields.get_spec(field) {
        Some(v) => match value_seq(v) {
            Some(items) => items.map_values(
                |item: YamlValue| value_edges(addrs, addr_of(r), field, item),
            ).flatten(),
            None => Seq::empty(),
        },
        None => Seq::empty(),
    }
}

/// The edges of the prose links of `r`.
pub open spec fn prose_edges(r: Resource, addrs: Seq<Seq<char>>) -> Seq<EdgeView> {
    r.prose_refs@.map_values(|p: String| edge_if_resolved(addrs, addr_of(r), p@, "prose"@)).flatten()
}

/// The outgoing edges of `r`, in the order they are found.
pub open spec fn resource_edges(r: Resource, addrs: Seq<Seq<char>>) -> Seq<EdgeView> {
    single_field_edges(r, addrs, "owner"@) + single_field_edges(r, addrs, "executed_by"@)
        + list_field_edges(r, addrs, "serves"@) + list_field_edges(r, addrs, "policies"@)
        + prose_edges(r, addrs)
}

/// All edges of the graph of `rs`.
pub open spec fn graph_edges(rs: Seq<Resource>) -> Seq<EdgeView> {
    rs.map_values(|r: Resource| resource_edges(r, addresses(rs))).flatten()
}

/// The views of a sequence of edges.
pub open spec fn edge_views(es: Seq<Edge>) -> Seq<EdgeView> {
    es.map_values(|e: Edge| e@)
}

/// The address of a node.
pub open spec fn node_addr(n: Node) -> Seq<char> {
    address(n.node_type@, n.id@)
}

/// The node for resource `r`.
pub open spec fn is_node_of(n: Node, r: Resource) -> bool {
    &&& n.node_type@ == r.resource_type@
    &&& n.id@ == r.id@
    &&& n.title == r.title
    &&& n.file@ == r.file@
}

fn push_edge(edges: &mut Vec<Edge>, addrs: &Vec<String>, from: &String, to: &str, field: &str)
    ensures
        edge_views(final(edges)@) == edge_views(old(edges)@) + edge_if_resolved(
            addrs.deep_view(),
            from@,
            to@,
            field@,
        ),
{
    if contains_str(addrs, to) {
        let e = Edge { from: from.clone(), to: to.to_owned(), field: field.to_owned() };
        let ghost ev = e@;
        let ghost before = edges@;
        edges.push(e);
        assert(edge_views(edges@) =~= edge_views(before) + seq![ev]);
    } else {
        assert(edge_views(edges@) =~= edge_views(edges@) + Seq::<EdgeView>::empty());
    }
}

fn push_value_edge(
    edges: &mut Vec<Edge>,
    addrs: &Vec<String>,
    from: &String,
    field: &str,
    v: &YamlValue,
)
    ensures
        edge_views(final(edges)@) == edge_views(old(edges)@) + value_edges(
            addrs.deep_view(),
            from@,
            field@,
            *v,
        ),
{
    match v.as_str() {
        Some(s) => push_edge(edges, addrs, from, s.as_str(), field),
        None => {
            assert(edge_views(edges@) =~= edge_views(edges@) + Seq::<EdgeView>::empty());
        },
    }
}

fn push_single_field_edges(
    edges: &mut Vec<Edge>,
    addrs: &Vec<String>,
    r: &Resource,
    from: &String,
    field: &str,
)
    requires
        from@ == addr_of(*r),
    ensures
        edge_views(final(edges)@) == edge_views(old(edges)@) + single_field_edges(
            *r,
            addrs.deep_view(),
            field@,
        ),
{
    match r.fields.get(field) {
        Some(v) => push_value_edge(edges, addrs, from, field, v),
        None => {
            assert(edge_views(edges@) =~= edge_views(edges@) + Seq::<EdgeView>::empty());
        },
    }
}

fn push_list_field_edges(
    edges: &mut Vec<Edge>,
    addrs: &Vec<String>,
    r: &Resource,
    from: &String,
    field: &str,
)
    requires
        from@ == addr_of(*r),
    ensures
        edge_views(final(edges)@) == edge_views(old(edges)@) + list_field_edges(
            *r,
            addrs.deep_view(),
            field@,
        ),
{
    match r.fields.get(field) {
        Some(v) => match v.as_sequence() {
            Some(items) => {
                let ghost start = edge_views(edges@);
                let ghost f = |item: YamlValue| value_edges(addrs.deep_view(), addr_of(*r), field@, item);
                let mut i: usize = 0;
                while i < items.len()
                    invariant
                        i <= items@.len(),
                        from@ == addr_of(*r),
                        f == (|item: YamlValue| value_edges(addrs.deep_view(), addr_of(*r), field@, item)),
                        edge_views(edges@) == start + items@.take(i as int).map_values(f).flatten(),
                    decreases items@.len() - i,
                {
                    push_value_edge(edges, addrs, from, field, &items[i]);
                    proof {
                        assert(items@.take(i + 1) =~= items@.take(i as int).push(items@[i as int]));
                        assert(items@.take(i + 1).map_values(f) =~= items@.take(i as int).map_values(
                            f,
                        ).push(f(items@[i as int])));
                        items@.take(i as int).map_values(f).lemma_flatten_push(f(items@[i as int]));
                    }
                    i = i + 1;
                }
                assert(items@.take(items@.len() as int) =~= items@);
            },
            None => {
                assert(edge_views(edges@) =~= edge_views(edges@) + Seq::<EdgeView>::empty());
            },
        },
        None => {
            assert(edge_views(edges@) =~= edge_views(edges@) + Seq::<EdgeView>::empty());
        },
    }
}

fn push_prose_edges(edges: &mut Vec<Edge>, addrs: &Vec<String>, r: &Resource, from: &String)
    requires
        from@ == addr_of(*r),
    ensures
        edge_views(final(edges)@) == edge_views(old(edges)@) + prose_edges(*r, addrs.deep_view()),
{
    let ghost start = edge_views(edges@);
    let ghost f = |p: String| edge_if_resolved(addrs.deep_view(), addr_of(*r), p@, "prose"@);
    let mut i: usize = 0;
    while i < r.prose_refs.len()
        invariant
            i <= r.prose_refs@.len(),
            from@ == addr_of(*r),
            f == (|p: String| edge_if_resolved(addrs.deep_view(), addr_of(*r), p@, "prose"@)),
            edge_views(edges@) == start + r.prose_refs@.take(i as int).map_values(f).flatten(),
        decreases r.prose_refs@.len() - i,
    {
        push_edge(edges, addrs, from, r.prose_refs[i].as_str(), "prose");
        proof {
            let ps = r.prose_refs@;
            assert(ps.take(i + 1) =~= ps.take(i as int).push(ps[i as int]));
            assert(ps.take(i + 1).map_values(f) =~= ps.take(i as int).map_values(f).push(f(ps[i as int])));
            ps.take(i as int).map_values(f).lemma_flatten_push(f(ps[i as int]));
        }
        i = i + 1;
    }
    assert(r.prose_refs@.take(r.prose_refs@.len() as int) =~= r.prose_refs@);
}

fn push_resource_edges(edges: &mut Vec<Edge>, addrs: &Vec<String>, r: &Resource)
    ensures
        edge_views(final(edges)@) == edge_views(old(edges)@) + resource_edges(*r, addrs.deep_view()),
{
    let ghost start = edge_views(edges@);
    let from = r.addr();
    push_single_field_edges(edges, addrs, r, &from, "owner");
    push_single_field_edges(edges, addrs, r, &from, "executed_by");
    push_list_field_edges(edges, addrs, r, &from, "serves");
    push_list_field_edges(edges, addrs, r, &from, "policies");
    push_prose_edges(edges, addrs, r, &from);
    assert(edge_views(edges@) =~= start + resource_edges(*r, addrs.deep_view()));
}

/// Builds the reference graph: one node per resource, and one edge per typed reference or
/// prose link whose target is the address of a resource.
pub fn graph(ws: &Workspace) -> (g: Graph)
    ensures
        g.nodes@.len() == ws.resources@.len(),
        forall|i: int| 0 <= i < g.nodes@.len() ==> is_node_of(#[trigger] g.nodes@[i], ws.resources@[i]),
        edge_views(g.edges@) == graph_edges(ws.resources@),
{
    let addrs = resource_addresses(&ws.resources);
    let ghost rs = ws.resources@;
    let ghost f = |r: Resource| resource_edges(r, addresses(rs));
    let mut edges: Vec<Edge> = Vec::new();
    let mut nodes: Vec<Node> = Vec::new();
    let mut i: usize = 0;
    while i < ws.resources.len()
        invariant
            i <= rs.len(),
            rs == ws.resources@,
            addrs.deep_view() == addresses(rs),
            f == (|r: Resource| resource_edges(r, addresses(rs))),
            edge_views(edges@) == rs.take(i as int).map_values(f).flatten(),
            nodes@.len() == i,
            forall|k: int| 0 <= k < i ==> is_node_of(#[trigger] nodes@[k], rs[k]),
        decreases rs.len() - i,
    {
        let r = &ws.resources[i];
        push_resource_edges(&mut edges, &addrs, r);
        nodes.push(
            Node {
                node_type: r.resource_type.clone(),
                id: r.id.clone(),
                title: r.title.clone(),
                file: r.file.clone(),
            },
        );
        proof {
            assert(rs.take(i + 1) =~= rs.take(i as int).push(rs[i as int]));
            assert(rs.take(i + 1).map_values(f) =~= rs.take(i as int).map_values(f).push(f(rs[i as int])));
            rs.take(i as int).map_values(f).lemma_flatten_push(f(rs[i as int]));
        }
        i = i + 1;
    }
    assert(rs.take(rs.len() as int) =~= rs);
    Graph { nodes, edges }
}

/// The addresses that some edge of `g` points to.
pub open spec fn edge_targets(g: Graph) -> Seq<Seq<char>> {
    g.edges@.map_values(|e: Edge| e.to@)
}

/// The addresses of the nodes that no edge points to, in node order.
pub open spec fn orphan_addrs(g: Graph) -> Seq<Seq<char>> {
    g.nodes@.map_values(|n: Node| node_addr(n)).filter(
        |a: Seq<char>| !edge_targets(g).contains(a),
    )
}

/// The edges of `g` that point to `target`, in edge order.
pub open spec fn incoming(g: Graph, target: Seq<char>) -> Seq<EdgeView> {
    edge_views(g.edges@).filter(|e: EdgeView| e.to == target)
}

/// Whether some edge of `g` points to `a`.
fn is_referenced(g: &Graph, a: &str) -> (b: bool)
    ensures
        b == edge_targets(*g).contains(a@),
{
    let mut i: usize = 0;
    while i < g.edges.len()
        invariant
            i <= g.edges@.len(),
            forall|j: int| 0 <= j < i ==> edge_targets(*g)[j] != a@,
        decreases g.edges@.len() - i,
    {
        if str_eq(g.edges[i].to.as_str(), a) {
            assert(edge_targets(*g)[i as int] == a@);
            return true;
        }
        i = i + 1;
    }
    false
}

/// The addresses of the resources that nothing references, in node order.
pub fn orphans(g: &Graph) -> (out: Vec<String>)
    ensures
        out.deep_view() == orphan_addrs(*g),
{
    let ghost addrs = g.nodes@.map_values(|n: Node| node_addr(n));
    let ghost pred = |a: Seq<char>| !edge_targets(*g).contains(a);
    let mut out: Vec<String> = Vec::new();
    let mut i: usize = 0;
    while i < g.nodes.len()
        invariant
            i <= g.nodes@.len(),
            addrs == g.nodes@.map_values(|n: Node| node_addr(n)),
            pred == (|a: Seq<char>| !edge_targets(*g).contains(a)),
            out.deep_view() == addrs.take(i as int).filter(pred),
        decreases g.nodes@.len() - i,
    {
        let a = slash_join(g.nodes[i].node_type.as_str(), g.nodes[i].id.as_str());
        let ghost av = a@;
        let ghost before = out.deep_view();
        if !is_referenced(g, a.as_str()) {
            out.push(a);
            assert(out.deep_view() =~= before.push(av));
        }
        proof {
            assert(addrs.take(i + 1) =~= addrs.take(i as int).push(addrs[i as int]));
            addrs.take(i as int).lemma_filter_push(addrs[i as int], pred);
        }
        i = i + 1;
    }
    assert(addrs.take(addrs.len() as int) =~= addrs);
    out
}

/// The edges that point to `target` (its backlinks), in edge order.
pub fn backlinks<'g>(g: &'g Graph, target: &str) -> (out: Vec<&'g Edge>)
    ensures
        out@.map_values(|e: &Edge| e@) == incoming(*g, target@),
{
    let ghost evs = edge_views(g.edges@);
    let ghost pred = |e: EdgeView| e.to == target@;
    let mut out: Vec<&'g Edge> = Vec::new();
    let mut i: usize = 0;
    while i < g.edges.len()
        invariant
            i <= g.edges@.len(),
            evs == edge_views(g.edges@),
            pred == (|e: EdgeView| e.to == target@),
            out@.map_values(|e: &Edge| e@) == evs.take(i as int).filter(pred),
        decreases g.edges@.len() - i,
    {
        let e = &g.edges[i];
        let ghost before = out@.map_values(|e: &Edge| e@);
        if str_eq(e.to.as_str(), target) {
            out.push(e);
            assert(out@.map_values(|e: &Edge| e@) =~= before.push(evs[i as int]));
        }
        proof {
            assert(evs.take(i + 1) =~= evs.take(i as int).push(evs[i as int]));
            evs.take(i as int).lemma_filter_push(evs[i as int], pred);
        }
        i = i + 1;
    }
    assert(evs.take(evs.len() as int) =~= evs);
    out
}

} // verus!
