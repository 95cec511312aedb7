//! Properties of the library as a whole, stated over the specifications of its functions.
use vstd::prelude::*;
use crate::graph::{
    edge_targets, edge_views, incoming, node_addr, orphan_addrs, edge_if_resolved, graph_edges, list_field_edges, prose_edges, resource_edges,
    single_field_edges, value_edges,
};
use crate::ids::is_valid_addr;
use crate::load::{add_resource, check_api_version, first_file_at, load_document, load_documents, Document, LoadState};
use crate::frontmatter::{
    after_opening, close_crlf, close_lf, end_crlf, end_lf, frontmatter_parts, is_link_text,
    link_close, link_end, open_crlf, open_lf, prose_links, prose_links_from, split_at_closing,
    with_lead, before_fence,
};
use crate::ids::{is_id_char, is_valid_id, is_valid_kind};
use crate::text::{first_occurrence, has_suffix, is_first_occurrence, occurs_at};
use crate::plan::{addr_set, change_at, changed_fields, impacts_on, last_at, plan_added, plan_changed, plan_impacts, plan_removed, same_value, str_keys, ChangedView};
use crate::sorted::{lemma_sorted_listing_exists, sorted_listing};
use crate::yaml::lemma_yaml_eq_reflexive;
use crate::text::has_prefix;
use crate::model::{address, ResourceView, API_PREFIX};
use crate::model::{EdgeView, Graph, Node};
use crate::model::{addr_of, addresses, FindingView, Resource};
use crate::validate::{
    list_ref_findings, prose_findings, prose_link_findings, ref_findings, required_findings,
    resource_findings, single_ref_findings, validation_findings,
};
use crate::yaml::{value_seq, value_str, YamlValue};

verus! {

/// An element of one of the parts is an element of the flattened sequence.
pub proof fn lemma_flatten_contains<A>(parts: Seq<Seq<A>>, i: int, j: int)
    requires
        0 <= i < parts.len(),
        0 <= j < parts[i].len(),
    ensures
        parts.flatten().contains(parts[i][j]),
    decreases parts.len(),
{
    let rest = parts.drop_first();
    if i == 0 {
        assert(parts.flatten() == parts[0] + rest.flatten());
        assert(parts.flatten()[j] == parts[i][j]);
    } else {
        lemma_flatten_contains(rest, i - 1, j);
        assert(rest[i - 1] == parts[i]);
        let k = choose|k: int| 0 <= k < rest.flatten().len() && rest.flatten()[k] == parts[i][j];
        assert(parts.flatten() == parts[0] + rest.flatten());
        assert(parts.flatten()[parts[0].len() + k] == parts[i][j]);
    }
}

/// An element of the flattened sequence is an element of one of the parts.
pub proof fn lemma_flatten_member<A>(parts: Seq<Seq<A>>, x: A)
    requires
        parts.flatten().contains(x),
    ensures
        exists|i: int| 0 <= i < parts.len() && #[trigger] parts[i].contains(x),
    decreases parts.len(),
{
    if parts.len() == 0 {
        assert(parts.flatten() =~= Seq::<A>::empty());
    } else {
        let rest = parts.drop_first();
        assert(parts.flatten() == parts[0] + rest.flatten());
        let k = choose|k: int| 0 <= k < parts.flatten().len() && parts.flatten()[k] == x;
        if k < parts[0].len() {
            assert(parts[0][k] == x);
            assert(parts[0].contains(x));
        } else {
            assert(rest.flatten()[k - parts[0].len()] == x);
            lemma_flatten_member(rest, x);
            let i = choose|i: int| 0 <= i < rest.len() && #[trigger] rest[i].contains(x);
            assert(parts[i + 1] == rest[i]);
        }
    }
}

/// An element of a concatenation is an element of one side.
pub proof fn lemma_concat_member<A>(a: Seq<A>, b: Seq<A>, x: A)
    requires
        (a + b).contains(x),
    ensures
        a.contains(x) || b.contains(x),
{
    let k = choose|k: int| 0 <= k < (a + b).len() && (a + b)[k] == x;
    if k < a.len() {
        assert(a[k] == x);
    } else {
        assert(b[k - a.len()] == x);
    }
}

/// `v` is a string that is a valid address of one of `addrs`.
pub open spec fn resolves(addrs: Seq<Seq<char>>, v: YamlValue) -> bool {
    match value_str(v) {
        Some(s) => is_valid_addr(s) && addrs.contains(s),
        None => false,
    }
}

/// `v` is a list of references that all resolve.
pub open spec fn all_resolve(addrs: Seq<Seq<char>>, v: YamlValue) -> bool {
    match value_seq(v) {
        Some(items) => forall|j: int| 0 <= j < items.len() ==> resolves(addrs, #[trigger] items[j]),
        None => false,
    }
}

/// The findings contain no error.
pub open spec fn no_errors(fs: Seq<FindingView>) -> bool {
    forall|k: int| 0 <= k < fs.len() ==> (#[trigger] fs[k]).severity != "error"@
}

proof fn lemma_resource_findings_in_validation(rs: Seq<Resource>, i: int, x: FindingView)
    requires
        0 <= i < rs.len(),
        resource_findings(rs[i], addresses(rs)).contains(x),
    ensures
        validation_findings(rs).contains(x),
{
    let parts = rs.map_values(|r: Resource| resource_findings(r, addresses(rs)));
    let k = choose|k: int|
        0 <= k < resource_findings(rs[i], addresses(rs)).len() && resource_findings(
            rs[i],
            addresses(rs),
        )[k] == x;
    assert(parts[i] == resource_findings(rs[i], addresses(rs)));
    lemma_flatten_contains(parts, i, k);
}

/// Where validation finds no error, every reference that a resource holds in `owner` or
/// `executed_by` is a string that names an existing resource (L1).
pub proof fn law_green_single_refs_resolve(rs: Seq<Resource>, i: int, field: Seq<char>)
    requires
        0 <= i < rs.len(),
        field == "owner"@ || field == "executed_by"@,
        no_errors(validation_findings(rs)),
    ensures
        rs[i].fields.get_spec(field) matches Some(v) ==> resolves(addresses(rs), v),
{
    let r = rs[i];
    let a = addresses(rs);
    let single = single_ref_findings(r, a, field);
    if single.len() > 0 {
        let x = single[0];
        assert(x.severity == "error"@);
        let all = resource_findings(r, a);
        if field == "owner"@ {
            assert(all[0] == x);
        } else {
            let before = single_ref_findings(r, a, "owner"@);
            assert(all[before.len() as int] == x);
        }
        assert(all.contains(x));
        lemma_resource_findings_in_validation(rs, i, x);
        let k = choose|k: int|
            0 <= k < validation_findings(rs).len() && validation_findings(rs)[k] == x;
        assert(validation_findings(rs)[k].severity != "error"@);
    }
}

/// An element of either side is an element of the concatenation.
pub proof fn lemma_in_concat<A>(a: Seq<A>, b: Seq<A>, x: A)
    requires
        a.contains(x) || b.contains(x),
    ensures
        (a + b).contains(x),
{
    if a.contains(x) {
        let k = choose|k: int| 0 <= k < a.len() && a[k] == x;
        assert((a + b)[k] == x);
    } else {
        let k = choose|k: int| 0 <= k < b.len() && b[k] == x;
        assert((a + b)[a.len() + k] == x);
    }
}

proof fn lemma_error_is_reported(rs: Seq<Resource>, i: int, x: FindingView)
    requires
        0 <= i < rs.len(),
        resource_findings(rs[i], addresses(rs)).contains(x),
        x.severity == "error"@,
    ensures
        !no_errors(validation_findings(rs)),
{
    lemma_resource_findings_in_validation(rs, i, x);
    let k = choose|k: int| 0 <= k < validation_findings(rs).len() && validation_findings(rs)[k] == x;
    assert(validation_findings(rs)[k].severity == "error"@);
}

/// Where validation finds no error, every `serves` or `policies` field is a list whose items
/// are strings that name existing resources (L1).
pub proof fn law_green_list_refs_resolve(rs: Seq<Resource>, i: int, field: Seq<char>)
    requires
        0 <= i < rs.len(),
        field == "serves"@ || field == "policies"@,
        no_errors(validation_findings(rs)),
    ensures
        rs[i].fields.get_spec(field) matches Some(v) ==> all_resolve(addresses(rs), v),
{
    let r = rs[i];
    let a = addresses(rs);
    let piece = list_ref_findings(r, a, field);
    let s1 = single_ref_findings(r, a, "owner"@);
    let s2 = single_ref_findings(r, a, "executed_by"@);
    let l1 = list_ref_findings(r, a, "serves"@);
    let l2 = list_ref_findings(r, a, "policies"@);
    let tail = prose_findings(r, a) + required_findings(r, "process"@, "owner"@)
        + required_findings(r, "goal"@, "owner"@);
    assert(resource_findings(r, a) =~= s1 + s2 + l1 + l2 + tail);
    if exists|x: FindingView| piece.contains(x) && x.severity == "error"@ {
        let x = choose|x: FindingView| piece.contains(x) && x.severity == "error"@;
        if field == "serves"@ {
            lemma_in_concat(s1 + s2, l1, x);
            lemma_in_concat(s1 + s2 + l1, l2, x);
        } else {
            lemma_in_concat(s1 + s2 + l1, l2, x);
        }
        lemma_in_concat(s1 + s2 + l1 + l2, tail, x);
        lemma_error_is_reported(rs, i, x);
    }
    match r.fields.get_spec(field) {
        Some(v) => match value_seq(v) {
            Some(items) => {
                assert forall|j: int| 0 <= j < items.len() implies resolves(a, #[trigger] items[j]) by {
                    let parts = items.map_values(|item: YamlValue| ref_findings(addr_of(r), a, field, item));
                    let rf = ref_findings(addr_of(r), a, field, items[j]);
                    assert(parts[j] == rf);
                    if rf.len() > 0 {
                        lemma_flatten_contains(parts, j, 0);
                        assert(piece.contains(rf[0]));
                        assert(rf[0].severity == "error"@);
                    }
                }
            },
            None => {
                assert(piece[0].severity == "error"@);
                assert(piece.contains(piece[0]));
            },
        },
        None => {},
    }
}

/// Where validation finds no error, every `process` and every `goal` has an `owner` (L2).
pub proof fn law_green_required_fields(rs: Seq<Resource>, i: int)
    requires
        0 <= i < rs.len(),
        no_errors(validation_findings(rs)),
    ensures
        rs[i].resource_type@ == "process"@ ==> rs[i].fields.get_spec("owner"@) is Some,
        rs[i].resource_type@ == "goal"@ ==> rs[i].fields.get_spec("owner"@) is Some,
{
    let r = rs[i];
    let a = addresses(rs);
    let head = single_ref_findings(r, a, "owner"@) + single_ref_findings(r, a, "executed_by"@)
        + list_ref_findings(r, a, "serves"@) + list_ref_findings(r, a, "policies"@)
        + prose_findings(r, a);
    let rp = required_findings(r, "process"@, "owner"@);
    let rg = required_findings(r, "goal"@, "owner"@);
    assert(resource_findings(r, a) =~= head + rp + rg);
    if rp.len() > 0 {
        lemma_in_concat(head, rp, rp[0]);
        lemma_in_concat(head + rp, rg, rp[0]);
        lemma_error_is_reported(rs, i, rp[0]);
    }
    if rg.len() > 0 {
        lemma_in_concat(head + rp, rg, rg[0]);
        lemma_error_is_reported(rs, i, rg[0]);
    }
}

proof fn lemma_ref_findings_codes(addr: Seq<char>, addrs: Seq<Seq<char>>, field: Seq<char>, v: YamlValue, x: FindingView)
    requires
        ref_findings(addr, addrs, field, v).contains(x),
    ensures
        x.code == "invalid-ref"@ || x.code == "unresolved-ref"@,
{
    let rf = ref_findings(addr, addrs, field, v);
    let k = choose|k: int| 0 <= k < rf.len() && rf[k] == x;
}

/// Prose links are warned on, never errors: every finding about an unresolved prose link is a
/// warning (so prose links never stop validation from being green).
pub proof fn law_prose_links_only_warn(rs: Seq<Resource>, x: FindingView)
    requires
        validation_findings(rs).contains(x),
        x.code == "unresolved-prose-ref"@,
    ensures
        x.severity == "warning"@,
{
    reveal_strlit("unresolved-prose-ref");
    reveal_strlit("invalid-ref");
    reveal_strlit("unresolved-ref");
    reveal_strlit("missing-required-field");
    let a = addresses(rs);
    let parts = rs.map_values(|r: Resource| resource_findings(r, a));
    lemma_flatten_member(parts, x);
    let i = choose|i: int| 0 <= i < parts.len() && #[trigger] parts[i].contains(x);
    let r = rs[i];
    let s1 = single_ref_findings(r, a, "owner"@);
    let s2 = single_ref_findings(r, a, "executed_by"@);
    let l1 = list_ref_findings(r, a, "serves"@);
    let l2 = list_ref_findings(r, a, "policies"@);
    let pr = prose_findings(r, a);
    let rp = required_findings(r, "process"@, "owner"@);
    let rg = required_findings(r, "goal"@, "owner"@);
    assert(parts[i] =~= s1 + s2 + l1 + l2 + pr + rp + rg);
    lemma_concat_member(s1 + s2 + l1 + l2 + pr + rp, rg, x);
    if rg.contains(x) {
        assert(x.code == "missing-required-field"@);
        return;
    }
    lemma_concat_member(s1 + s2 + l1 + l2 + pr, rp, x);
    if rp.contains(x) {
        assert(x.code == "missing-required-field"@);
        return;
    }
    lemma_concat_member(s1 + s2 + l1 + l2, pr, x);
    if pr.contains(x) {
        let pparts = r.prose_refs@.map_values(|p: String| prose_link_findings(addr_of(r), a, p@));
        lemma_flatten_member(pparts, x);
        let j = choose|j: int| 0 <= j < pparts.len() && #[trigger] pparts[j].contains(x);
        let q = prose_link_findings(addr_of(r), a, r.prose_refs@[j]@);
        assert(pparts[j] == q);
        let k = choose|k: int| 0 <= k < q.len() && q[k] == x;
        assert(q[k].severity == "warning"@);
        return;
    }
    lemma_concat_member(s1 + s2 + l1, l2, x);
    if !l2.contains(x) {
        lemma_concat_member(s1 + s2, l1, x);
        if !l1.contains(x) {
            lemma_concat_member(s1, s2, x);
        }
    }
    if !l1.contains(x) && !l2.contains(x) {
        let f = if s1.contains(x) { "owner"@ } else { "executed_by"@ };
        match r.fields.get_spec(f) {
            Some(v) => {
                lemma_ref_findings_codes(addr_of(r), a, f, v, x);
            },
            None => {},
        }
        assert(x.code == "invalid-ref"@ || x.code == "unresolved-ref"@);
        return;
    }
    let f = if l1.contains(x) { "serves"@ } else { "policies"@ };
    let piece = list_ref_findings(r, a, f);
    assert(piece.contains(x));
    match r.fields.get_spec(f) {
        Some(v) => match value_seq(v) {
            Some(items) => {
                let iparts = items.map_values(|item: YamlValue| ref_findings(addr_of(r), a, f, item));
                lemma_flatten_member(iparts, x);
                let j = choose|j: int| 0 <= j < iparts.len() && #[trigger] iparts[j].contains(x);
                assert(iparts[j] == ref_findings(addr_of(r), a, f, items[j]));
                lemma_ref_findings_codes(addr_of(r), a, f, items[j], x);
            },
            None => {},
        },
        None => {},
    }
    assert(x.code == "invalid-ref"@ || x.code == "unresolved-ref"@);
}

proof fn lemma_value_edges_resolved(
    addrs: Seq<Seq<char>>,
    from: Seq<char>,
    field: Seq<char>,
    v: YamlValue,
    e: EdgeView,
)
    requires
        value_edges(addrs, from, field, v).contains(e),
    ensures
        addrs.contains(e.to),
        e.from == from,
{
    let q = value_edges(addrs, from, field, v);
    let k = choose|k: int| 0 <= k < q.len() && q[k] == e;
}

/// Every edge of the graph joins two resources: it starts at the address of a resource and
/// points to the address of a resource.
pub proof fn law_edges_join_resources(rs: Seq<Resource>, e: EdgeView)
    requires
        graph_edges(rs).contains(e),
    ensures
        addresses(rs).contains(e.from),
        addresses(rs).contains(e.to),
{
    let a = addresses(rs);
    let parts = rs.map_values(|r: Resource| resource_edges(r, a));
    lemma_flatten_member(parts, e);
    let i = choose|i: int| 0 <= i < parts.len() && #[trigger] parts[i].contains(e);
    let r = rs[i];
    assert(a[i] == addr_of(r));
    let s1 = single_field_edges(r, a, "owner"@);
    let s2 = single_field_edges(r, a, "executed_by"@);
    let l1 = list_field_edges(r, a, "serves"@);
    let l2 = list_field_edges(r, a, "policies"@);
    let pr = prose_edges(r, a);
    assert(parts[i] =~= s1 + s2 + l1 + l2 + pr);
    lemma_concat_member(s1 + s2 + l1 + l2, pr, e);
    if pr.contains(e) {
        let pparts = r.prose_refs@.map_values(|p: String| edge_if_resolved(a, addr_of(r), p@, "prose"@));
        lemma_flatten_member(pparts, e);
        let j = choose|j: int| 0 <= j < pparts.len() && #[trigger] pparts[j].contains(e);
        let q = edge_if_resolved(a, addr_of(r), r.prose_refs@[j]@, "prose"@);
        assert(pparts[j] == q);
        let k = choose|k: int| 0 <= k < q.len() && q[k] == e;
        return;
    }
    lemma_concat_member(s1 + s2 + l1, l2, e);
    if !l2.contains(e) {
        lemma_concat_member(s1 + s2, l1, e);
        if !l1.contains(e) {
            lemma_concat_member(s1, s2, e);
        }
    }
    if !l1.contains(e) && !l2.contains(e) {
        let f = if s1.contains(e) { "owner"@ } else { "executed_by"@ };
        match r.fields.get_spec(f) {
            Some(v) => {
                lemma_value_edges_resolved(a, addr_of(r), f, v, e);
            },
            None => {},
        }
        return;
    }
    let f = if l1.contains(e) { "serves"@ } else { "policies"@ };
    match r.fields.get_spec(f) {
        Some(v) => match value_seq(v) {
            Some(items) => {
                let iparts = items.map_values(|item: YamlValue| value_edges(a, addr_of(r), f, item));
                lemma_flatten_member(iparts, e);
                let j = choose|j: int| 0 <= j < iparts.len() && #[trigger] iparts[j].contains(e);
                assert(iparts[j] == value_edges(a, addr_of(r), f, items[j]));
                lemma_value_edges_resolved(a, addr_of(r), f, items[j], e);
            },
            None => {},
        },
        None => {},
    }
}

/// A node is an orphan exactly when it has no backlinks.
pub proof fn law_orphan_iff_no_backlinks(g: Graph, i: int)
    requires
        0 <= i < g.nodes@.len(),
    ensures
        orphan_addrs(g).contains(node_addr(g.nodes@[i])) <==> incoming(
            g,
            node_addr(g.nodes@[i]),
        ).len() == 0,
{
    let a = node_addr(g.nodes@[i]);
    let mapped = g.nodes@.map_values(|n: Node| node_addr(n));
    let pred = |x: Seq<char>| !edge_targets(g).contains(x);
    let evs = edge_views(g.edges@);
    let epred = |e: EdgeView| e.to == a;
    assert(mapped[i] == a);
    if incoming(g, a).len() == 0 {
        if edge_targets(g).contains(a) {
            let k = choose|k: int| 0 <= k < edge_targets(g).len() && edge_targets(g)[k] == a;
            assert(evs[k].to == a);
            evs.lemma_filter_contains(epred, k);
            assert(incoming(g, a).contains(evs[k]));
        }
        mapped.lemma_filter_contains(pred, i);
    }
    if orphan_addrs(g).contains(a) {
        let k = choose|k: int| 0 <= k < orphan_addrs(g).len() && orphan_addrs(g)[k] == a;
        mapped.lemma_filter_pred(pred, k);
        if incoming(g, a).len() > 0 {
            let e = incoming(g, a)[0];
            evs.lemma_filter_pred(epred, 0);
            assert(incoming(g, a).contains(e));
            evs.lemma_filter_contains_rev(epred, e);
            let m = choose|m: int| 0 <= m < evs.len() && evs[m] == e;
            assert(edge_targets(g)[m] == a);
        }
    }
}

/// Every orphan is the address of a node.
pub proof fn law_orphans_are_nodes(g: Graph, a: Seq<char>)
    requires
        orphan_addrs(g).contains(a),
    ensures
        exists|i: int| 0 <= i < g.nodes@.len() && node_addr(#[trigger] g.nodes@[i]) == a,
{
    let mapped = g.nodes@.map_values(|n: Node| node_addr(n));
    mapped.lemma_filter_contains_rev(|x: Seq<char>| !edge_targets(g).contains(x), a);
    let k = choose|k: int| 0 <= k < mapped.len() && mapped[k] == a;
    assert(node_addr(g.nodes@[k]) == a);
}

/// The document opts in as a resource: its frontmatter parses, has an `api` starting with
/// `API_PREFIX`, a `type` and an `id`.
pub open spec fn opts_in(d: Document) -> bool {
    match d.parsed {
        Ok(m) => {
            &&& m.str_field("api"@) matches Some(api) && has_prefix(api, API_PREFIX@)
            &&& m.str_field("type"@) is Some
            &&& m.str_field("id"@) is Some
        },
        Err(_) => false,
    }
}

/// The resource an opted-in document becomes.
pub open spec fn doc_resource(d: Document) -> ResourceView {
    let m = d.parsed->Ok_0;
    ResourceView {
        resource_type: m.str_field("type"@)->0,
        id: m.str_field("id"@)->0,
        title: m.str_field("title"@),
        file: d.file@,
        fields: m,
        prose_refs: prose_links(d.body@),
        body: d.body@,
    }
}

/// Loading only ever adds findings: the earlier ones stay, in place.
pub open spec fn keeps_findings(st: LoadState, st2: LoadState) -> bool {
    st.findings.len() <= st2.findings.len() && forall|k: int|
        0 <= k < st.findings.len() ==> #[trigger] st2.findings[k] == st.findings[k]
}

pub proof fn lemma_load_document_shape(st: LoadState, d: Document)
    ensures
        keeps_findings(st, load_document(st, d)),
        load_document(st, d).resources == if opts_in(d) {
            st.resources.push(doc_resource(d))
        } else {
            st.resources
        },
{
    let r = load_document(st, d);
    match d.parsed {
        Ok(m) => {
            if opts_in(d) {
                let api = m.str_field("api"@)->0;
                let st1 = check_api_version(st, d.file@, api);
                assert(keeps_findings(st, st1));
                let ty = m.str_field("type"@)->0;
                let id = m.str_field("id"@)->0;
                assert(r == add_resource(st1, d, m, ty, id));
                assert(r.resources =~= st.resources.push(doc_resource(d)));
            }
        },
        Err(_) => {},
    }
}

/// The resources of a load are exactly the opted-in documents, in order: a markdown file is a
/// resource if and only if its frontmatter has an `api` starting with `API_PREFIX` (and a
/// `type` and an `id`); every other file is left alone.
pub proof fn law_resources_are_opted_in_documents(st: LoadState, ds: Seq<Document>)
    ensures
        load_documents(st, ds).resources == st.resources + ds.filter(|d: Document| opts_in(d)).map_values(
            |d: Document| doc_resource(d),
        ),
        keeps_findings(st, load_documents(st, ds)),
    decreases ds.len(),
{
    let pred = |d: Document| opts_in(d);
    let f = |d: Document| doc_resource(d);
    if ds.len() == 0 {
        assert(ds.filter(pred) =~= Seq::<Document>::empty()) by {
            reveal(Seq::filter);
        }
        assert(st.resources + ds.filter(pred).map_values(f) =~= st.resources);
    } else {
        let prev = ds.drop_last();
        law_resources_are_opted_in_documents(st, prev);
        let mid = load_documents(st, prev);
        lemma_load_document_shape(mid, ds.last());
        assert(ds =~= prev.push(ds.last()));
        prev.lemma_filter_push(ds.last(), pred);
        if opts_in(ds.last()) {
            assert(prev.filter(pred).push(ds.last()).map_values(f) =~= prev.filter(pred).map_values(
                f,
            ).push(f(ds.last())));
        }
        assert(load_documents(st, ds).resources =~= st.resources + ds.filter(pred).map_values(f));
    }
}

/// The address of a loaded resource.
pub open spec fn view_addr(r: ResourceView) -> Seq<char> {
    address(r.resource_type, r.id)
}

/// A `duplicate-id` error naming `a` has been reported.
pub open spec fn duplicate_reported(st: LoadState, a: Seq<char>) -> bool {
    exists|k: int|
        0 <= k < st.findings.len() && (#[trigger] st.findings[k]).code == "duplicate-id"@
            && st.findings[k].severity == "error"@ && st.findings[k].resource == Some(a)
}

/// Every address held by two resources has been reported as a duplicate.
pub open spec fn duplicates_reported(st: LoadState) -> bool {
    forall|i: int, j: int|
        0 <= i < j < st.resources.len() && view_addr(#[trigger] st.resources[i]) == view_addr(
            #[trigger] st.resources[j],
        ) ==> duplicate_reported(st, view_addr(st.resources[j]))
}

proof fn lemma_first_file_found(rs: Seq<ResourceView>, a: Seq<char>, i: int)
    requires
        0 <= i < rs.len(),
        view_addr(rs[i]) == a,
    ensures
        first_file_at(rs, a) is Some,
    decreases i,
{
    if i > 0 && view_addr(rs[0]) != a {
        lemma_first_file_found(rs.drop_first(), a, i - 1);
    }
}

proof fn lemma_reports_kept(st: LoadState, st2: LoadState, a: Seq<char>)
    requires
        duplicate_reported(st, a),
        keeps_findings(st, st2),
    ensures
        duplicate_reported(st2, a),
{
    let k = choose|k: int|
        0 <= k < st.findings.len() && (#[trigger] st.findings[k]).code == "duplicate-id"@
            && st.findings[k].severity == "error"@ && st.findings[k].resource == Some(a);
    assert(st2.findings[k] == st.findings[k]);
}

proof fn lemma_duplicates_step(st: LoadState, d: Document)
    requires
        duplicates_reported(st),
    ensures
        duplicates_reported(load_document(st, d)),
{
    let r = load_document(st, d);
    lemma_load_document_shape(st, d);
    if !opts_in(d) {
        assert forall|i: int, j: int|
            0 <= i < j < r.resources.len() && view_addr(#[trigger] r.resources[i]) == view_addr(
                #[trigger] r.resources[j],
            ) implies duplicate_reported(r, view_addr(r.resources[j])) by {
            lemma_reports_kept(st, r, view_addr(st.resources[j]));
        }
    } else {
        let m = d.parsed->Ok_0;
        let api = m.str_field("api"@)->0;
        let ty = m.str_field("type"@)->0;
        let id = m.str_field("id"@)->0;
        let a = address(ty, id);
        let st1 = check_api_version(st, d.file@, api);
        assert(r == add_resource(st1, d, m, ty, id));
        assert forall|i: int, j: int|
            0 <= i < j < r.resources.len() && view_addr(#[trigger] r.resources[i]) == view_addr(
                #[trigger] r.resources[j],
            ) implies duplicate_reported(r, view_addr(r.resources[j])) by {
            if j < st.resources.len() {
                assert(r.resources[i] == st.resources[i]);
                assert(r.resources[j] == st.resources[j]);
                lemma_reports_kept(st, r, view_addr(st.resources[j]));
            } else {
                assert(j == st.resources.len());
                assert(r.resources[j] == doc_resource(d));
                assert(view_addr(r.resources[j]) == a);
                assert(r.resources[i] == st.resources[i]);
                lemma_first_file_found(st.resources, a, i);
                let k = (r.findings.len() - 1) as int;
                assert(r.findings[k].code == "duplicate-id"@);
            }
        }
    }
}

/// Ids are unique per type: whenever two resources of a load share an address, a
/// `duplicate-id` error names that address.
pub proof fn law_duplicate_addresses_reported(st: LoadState, ds: Seq<Document>)
    requires
        duplicates_reported(st),
    ensures
        duplicates_reported(load_documents(st, ds)),
    decreases ds.len(),
{
    if ds.len() > 0 {
        law_duplicate_addresses_reported(st, ds.drop_last());
        lemma_duplicates_step(load_documents(st, ds.drop_last()), ds.last());
    }
}

/// Filtering keeps nothing when the predicate holds for no element.
pub proof fn lemma_filter_none<A>(s: Seq<A>, pred: spec_fn(A) -> bool)
    requires
        forall|i: int| 0 <= i < s.len() ==> !pred(#[trigger] s[i]),
    ensures
        s.filter(pred).len() == 0,
{
    if s.filter(pred).len() > 0 {
        s.lemma_filter_pred(pred, 0);
        assert(s.filter(pred).contains(s.filter(pred)[0]));
        s.lemma_filter_contains_rev(pred, s.filter(pred)[0]);
    }
}

/// Flattening sequences that are all empty gives the empty sequence.
pub proof fn lemma_flatten_of_empties<A>(parts: Seq<Seq<A>>)
    requires
        forall|i: int| 0 <= i < parts.len() ==> (#[trigger] parts[i]).len() == 0,
    ensures
        parts.flatten().len() == 0,
    decreases parts.len(),
{
    if parts.len() > 0 {
        lemma_flatten_of_empties(parts.drop_first());
        assert(parts.flatten() == parts[0] + parts.drop_first().flatten());
    }
}

proof fn lemma_no_change_against_itself(rs: Seq<Resource>, a: Seq<char>)
    ensures
        change_at(rs, rs, a).len() == 0,
{
    match last_at(rs, a) {
        Some(b) => {
            let keys = sorted_listing(str_keys(b.fields).union(str_keys(b.fields)));
            let pred = |k: Seq<char>| !same_value(b.fields.get_spec(k), b.fields.get_spec(k));
            assert forall|i: int| 0 <= i < keys.len() implies !pred(#[trigger] keys[i]) by {
                match b.fields.get_spec(keys[i]) {
                    Some(v) => lemma_yaml_eq_reflexive(v),
                    None => {},
                }
            }
            lemma_filter_none(keys, pred);
            assert(changed_fields(b, b).len() == 0);
        },
        None => {},
    }
}

/// Comparing a description with itself plans nothing: nothing added, changed, removed or
/// impacted.
pub proof fn law_plan_against_itself_is_empty(rs: Seq<Resource>)
    ensures
        plan_added(rs, rs).len() == 0,
        plan_removed(rs, rs).len() == 0,
        plan_changed(rs, rs).len() == 0,
        plan_impacts(rs, rs).len() == 0,
{
    let s = addr_set(rs);
    let l = sorted_listing(s);
    lemma_sorted_listing_exists(addresses(rs));
    let pred = |a: Seq<char>| !s.contains(a);
    assert forall|i: int| 0 <= i < l.len() implies !pred(#[trigger] l[i]) by {
        assert(l.to_set().contains(l[i]));
    }
    lemma_filter_none(l, pred);
    let parts = l.map_values(|a: Seq<char>| change_at(rs, rs, a));
    assert forall|i: int| 0 <= i < parts.len() implies (#[trigger] parts[i]).len() == 0 by {
        lemma_no_change_against_itself(rs, l[i]);
    }
    lemma_flatten_of_empties(parts);
    let removed = plan_removed(rs, rs);
    let changed = plan_changed(rs, rs);
    let ip1 = removed.map_values(|a: Seq<char>| impacts_on(crate::graph::graph_edges(rs), a));
    let ip2 = changed.map_values(|c: ChangedView| impacts_on(crate::graph::graph_edges(rs), c.address));
    lemma_flatten_of_empties(ip1);
    lemma_flatten_of_empties(ip2);
}

proof fn lemma_filtered_listing_member(
    items: Seq<Seq<char>>,
    pred: spec_fn(Seq<char>) -> bool,
    a: Seq<char>,
)
    ensures
        sorted_listing(items.to_set()).filter(pred).contains(a) <==> items.to_set().contains(a)
            && pred(a),
{
    let l = sorted_listing(items.to_set());
    lemma_sorted_listing_exists(items);
    if l.filter(pred).contains(a) {
        let k = choose|k: int| 0 <= k < l.filter(pred).len() && l.filter(pred)[k] == a;
        l.lemma_filter_pred(pred, k);
        l.lemma_filter_contains_rev(pred, a);
        assert(l.to_set().contains(a));
    }
    if items.to_set().contains(a) && pred(a) {
        assert(l.to_set().contains(a));
        let k = choose|k: int| 0 <= k < l.len() && l[k] == a;
        l.lemma_filter_contains(pred, k);
    }
}

/// An address is added exactly when it is present now and was not in the baseline, and
/// removed exactly when it was in the baseline and is not present now.
pub proof fn law_added_and_removed(base: Seq<Resource>, cur: Seq<Resource>, a: Seq<char>)
    ensures
        plan_added(base, cur).contains(a) <==> addr_set(cur).contains(a) && !addr_set(base).contains(
            a,
        ),
        plan_removed(base, cur).contains(a) <==> addr_set(base).contains(a) && !addr_set(
            cur,
        ).contains(a),
{
    lemma_filtered_listing_member(addresses(cur), |x: Seq<char>| !addr_set(base).contains(x), a);
    lemma_filtered_listing_member(addresses(base), |x: Seq<char>| !addr_set(cur).contains(x), a);
}

/// An opening fence of a frontmatter block.
pub open spec fn is_opening_fence(o: Seq<char>) -> bool {
    o == open_lf() || o == open_crlf()
}

/// A closing fence of a frontmatter block: after a line of frontmatter it begins with that
/// line's end (`\n---\n`, `\n---\r\n`, or at the end of the file `\n---`, `\r\n---`); right
/// after the opening fence (an empty block, `front` empty) it is the bare `---` line.
pub open spec fn is_closing_fence(c: Seq<char>, front: Seq<char>) -> bool {
    ||| c == close_lf()
    ||| c == close_crlf()
    ||| c == end_lf()
    ||| c == end_crlf()
    ||| (front.len() == 0 && (c == close_lf().skip(1) || c == close_crlf().skip(1) || c
        == end_lf().skip(1)))
}

/// A closing fence that ends the file.
pub open spec fn is_end_fence(c: Seq<char>) -> bool {
    c == end_lf() || c == end_crlf() || c == end_lf().skip(1)
}

/// Where `p` occurs at all, it has a first occurrence.
proof fn lemma_occurrence_has_first(s: Seq<char>, p: Seq<char>, i: int)
    requires
        occurs_at(s, p, i),
    ensures
        first_occurrence(s, p) is Some,
    decreases i,
{
    if exists|j: int| 0 <= j < i && occurs_at(s, p, j) {
        let j = choose|j: int| 0 <= j < i && occurs_at(s, p, j);
        lemma_occurrence_has_first(s, p, j);
    } else {
        assert(is_first_occurrence(s, p, i));
    }
}

/// No `\n---\n` in `n[1..q]` when the first one in `n` is not before `q - 5`.
proof fn lemma_front_has_no_fence(n: Seq<char>, q: int)
    requires
        1 <= q <= n.len(),
        forall|k: int| 0 <= k < q - 4 ==> !occurs_at(n, close_lf(), k),
    ensures
        first_occurrence(n.subrange(1, q), close_lf()) is None,
{
    let f = n.subrange(1, q);
    if first_occurrence(f, close_lf()) is Some {
        let j = choose|j: int| is_first_occurrence(f, close_lf(), j);
        assert(occurs_at(f, close_lf(), j));
        assert(n.subrange(j + 1, j + 6) =~= f.subrange(j, j + 5));
        assert(occurs_at(n, close_lf(), j + 1));
    }
}

/// What the law below says of the text after the opening fence, with closing fence `c`.
pub open spec fn reassembles(rest: Seq<char>, front: Seq<char>, c: Seq<char>, body: Seq<char>) -> bool {
    &&& is_closing_fence(c, front)
    &&& rest == front + c + body
    &&& is_end_fence(c) ==> body.len() == 0
    &&& first_occurrence(front, close_lf()) is None
}

/// The split at a line fence `fence` (`\n---\n` or `\n---\r\n`) first found at `p`.
proof fn lemma_split_at_line_fence(n: Seq<char>, fence: Seq<char>, p: int) -> (c: Seq<char>)
    requires
        n.len() >= 1,
        n[0] == '\n',
        fence == close_lf() || fence == close_crlf(),
        occurs_at(n, fence, p),
        forall|k: int| 0 <= k < p ==> !occurs_at(n, close_lf(), k),
    ensures
        reassembles(n.skip(1), before_fence(n, p), c, n.skip(p + fence.len())),
{
    let front = before_fence(n, p);
    let body = n.skip(p + fence.len());
    assert(n =~= n.take(p) + fence + body);
    if p == 0 {
        let c = fence.skip(1);
        assert(n.skip(1) =~= front + c + body);
        assert(is_closing_fence(c, front) && !is_end_fence(c));
        assert(front =~= Seq::<char>::empty());
        assert(first_occurrence(front, close_lf()) is None) by {
            if first_occurrence(front, close_lf()) is Some {
                let j = choose|j: int| is_first_occurrence(front, close_lf(), j);
                assert(occurs_at(front, close_lf(), j));
            }
        }
        c
    } else {
        assert(front =~= n.subrange(1, p));
        assert(n.skip(1) =~= front + fence + body);
        assert(is_closing_fence(fence, front) && !is_end_fence(fence));
        lemma_front_has_no_fence(n, p);
        fence
    }
}

/// The split at a fence that ends the file, `n` ending with `fence` and holding no `\n---\n`.
proof fn lemma_split_at_end_fence(n: Seq<char>, fence: Seq<char>) -> (c: Seq<char>)
    requires
        n.len() >= 1,
        n[0] == '\n',
        fence == end_lf() || fence == end_crlf(),
        has_suffix(n, fence),
        forall|k: int| 0 <= k ==> !occurs_at(n, close_lf(), k),
    ensures
        reassembles(n.skip(1), before_fence(n, n.len() - fence.len()), c, Seq::empty()),
{
    let q = n.len() - fence.len();
    let front = before_fence(n, q);
    let body = Seq::<char>::empty();
    assert(n =~= n.take(q) + fence);
    if q == 0 {
        assert(fence == end_lf());
        let c = fence.skip(1);
        assert(n.skip(1) =~= front + c + body);
        assert(is_closing_fence(c, front) && is_end_fence(c));
        assert(front =~= Seq::<char>::empty());
        assert(first_occurrence(front, close_lf()) is None) by {
            if first_occurrence(front, close_lf()) is Some {
                let j = choose|j: int| is_first_occurrence(front, close_lf(), j);
                assert(occurs_at(front, close_lf(), j));
            }
        }
        c
    } else {
        assert(front =~= n.subrange(1, q));
        assert(n.skip(1) =~= front + fence + body);
        assert(is_closing_fence(fence, front) && is_end_fence(fence));
        lemma_front_has_no_fence(n, q);
        fence
    }
}

/// The split of the text after the opening fence reassembles it, with closing fence `c`.
proof fn lemma_split_at_closing_reassembles(rest: Seq<char>) -> (c: Seq<char>)
    ensures
        split_at_closing(rest) matches Some((front, body)) ==> reassembles(rest, front, c, body),
{
    let n = with_lead(rest);
    assert(rest =~= n.skip(1));
    match first_occurrence(n, close_lf()) {
        Some(p) => {
            let k = choose|k: int| is_first_occurrence(n, close_lf(), k);
            lemma_split_at_line_fence(n, close_lf(), p)
        },
        None => {
            assert forall|k: int| 0 <= k implies !occurs_at(n, close_lf(), k) by {
                if occurs_at(n, close_lf(), k) {
                    lemma_occurrence_has_first(n, close_lf(), k);
                }
            }
            match first_occurrence(n, close_crlf()) {
                Some(p) => {
                    let k = choose|k: int| is_first_occurrence(n, close_crlf(), k);
                    lemma_split_at_line_fence(n, close_crlf(), p)
                },
                None => {
                    if has_suffix(n, end_lf()) {
                        lemma_split_at_end_fence(n, end_lf())
                    } else if has_suffix(n, end_crlf()) {
                        lemma_split_at_end_fence(n, end_crlf())
                    } else {
                        Seq::empty()
                    }
                },
            }
        },
    }
}

/// A split frontmatter block puts the file back together: the text is an opening fence, the
/// frontmatter, a closing fence and the body. After a fence that ends the file the body is
/// empty, and the frontmatter never holds a `\n---\n` line.
pub proof fn law_frontmatter_reassembles(text: Seq<char>)
    ensures
        frontmatter_parts(text) matches Some((front, body)) ==> exists|o: Seq<char>, c: Seq<char>|
            is_opening_fence(o) && is_closing_fence(c, front) && text == o + front + c + body && (
            is_end_fence(c) ==> body.len() == 0),
        frontmatter_parts(text) matches Some((front, body)) ==> first_occurrence(
            front,
            close_lf(),
        ) is None,
{
    match after_opening(text) {
        Some(rest) => {
            let o = if text.take(4) == open_lf() && 4 <= text.len() {
                open_lf()
            } else {
                open_crlf()
            };
            assert(text =~= o + rest);
            let c = lemma_split_at_closing_reassembles(rest);
            match split_at_closing(rest) {
                Some((front, body)) => {
                    assert(text =~= o + front + c + body);
                    assert(is_opening_fence(o));
                },
                None => {},
            }
        },
        None => {},
    }
}

proof fn lemma_links_from_are_link_text(s: Seq<char>, i: int)
    ensures
        forall|k: int|
            0 <= k < prose_links_from(s, i).len() ==> is_link_text(#[trigger] prose_links_from(s, i)[k]),
    decreases s.len() - i,
{
    if 0 <= i && i + 1 < s.len() {
        match link_end(s, i) {
            Some(end) => {
                let kk = choose|kk: int| #[trigger] is_first_occurrence(s.skip(i + 2), link_close(), kk);
                assert(occurs_at(s.skip(i + 2), link_close(), kk));
                lemma_links_from_are_link_text(s, i + 4 + end);
                let inner = s.subrange(i + 2, i + 2 + end);
                let head: Seq<Seq<char>> = if is_link_text(inner) {
                    seq![inner]
                } else {
                    Seq::empty()
                };
                let rest = prose_links_from(s, i + 4 + end);
                assert(prose_links_from(s, i) == head + rest);
                assert forall|k: int| 0 <= k < (head + rest).len() implies is_link_text(
                    #[trigger] (head + rest)[k],
                ) by {
                    if k < head.len() {
                        assert((head + rest)[k] == inner);
                    } else {
                        assert((head + rest)[k] == rest[k - head.len()]);
                    }
                }
            },
            None => {
                lemma_links_from_are_link_text(s, i + 1);
                assert(prose_links_from(s, i) == prose_links_from(s, i + 1));
            },
        }
    } else {
        assert(prose_links_from(s, i).len() == 0);
    }
}

/// Every prose link found in a body holds a `/` and no space or newline.
pub proof fn law_prose_links_are_link_text(body: Seq<char>, k: int)
    requires
        0 <= k < prose_links(body).len(),
    ensures
        is_link_text(prose_links(body)[k]),
{
    lemma_links_from_are_link_text(body, 0);
}

/// A valid type and a valid id make a valid address: every resource that passes the id
/// check can be referred to.
pub proof fn law_valid_parts_make_valid_address(t: Seq<char>, id: Seq<char>)
    requires
        is_valid_kind(t),
        is_valid_id(id),
    ensures
        is_valid_addr(address(t, id)),
{
    let s = address(t, id);
    let i = t.len() as int;
    assert(s[i] == '/');
    assert forall|j: int| 0 <= j < i implies s[j] != '/' by {
        assert(s[j] == t[j]);
        if is_valid_id(t) {
            assert(is_id_char(t[j]));
        } else {
            if j >= 2 {
                assert(t[j] == t.skip(2)[j - 2]);
                assert(is_id_char(t.skip(2)[j - 2]));
            } else {
                assert(t.take(2)[j] == t[j]);
            }
        }
    }
    assert(s.take(i) =~= t);
    assert(s.skip(i + 1) =~= id);
}

/// Adding edges never creates an orphan: of two graphs with the same nodes, where every edge
/// of the first is an edge of the second, every orphan of the second is an orphan of the
/// first.
pub proof fn law_more_edges_no_new_orphans(g1: Graph, g2: Graph, a: Seq<char>)
    requires
        g1.nodes@ == g2.nodes@,
        forall|k: int| 0 <= k < g1.edges@.len() ==> g2.edges@.contains(#[trigger] g1.edges@[k]),
        orphan_addrs(g2).contains(a),
    ensures
        orphan_addrs(g1).contains(a),
{
    let addrs = g2.nodes@.map_values(|n: Node| node_addr(n));
    let p2 = |x: Seq<char>| !edge_targets(g2).contains(x);
    let p1 = |x: Seq<char>| !edge_targets(g1).contains(x);
    assert(g1.nodes@.map_values(|n: Node| node_addr(n)) == addrs);
    addrs.lemma_filter_contains_rev(p2, a);
    let fi = choose|fi: int| 0 <= fi < addrs.filter(p2).len() && addrs.filter(p2)[fi] == a;
    addrs.lemma_filter_pred(p2, fi);
    if edge_targets(g1).contains(a) {
        let k = choose|k: int| 0 <= k < edge_targets(g1).len() && edge_targets(g1)[k] == a;
        let e = g1.edges@[k];
        assert(g2.edges@.contains(e));
        let k2 = choose|k2: int| 0 <= k2 < g2.edges@.len() && g2.edges@[k2] == e;
        assert(edge_targets(g2)[k2] == a);
    }
    let i = choose|i: int| 0 <= i < addrs.len() && addrs[i] == a;
    addrs.lemma_filter_contains(p1, i);
}

/// A prose link as written in a body: `[[x]]`.
pub open spec fn wrapped_link(x: Seq<char>) -> Seq<char> {
    seq!['[', '['] + x + link_close()
}

/// `links` stand in `s` at the positions `pos` (all at or after `i`), written `[[x]]`, each
/// without a `]]` inside, in order of position and without overlapping.
pub open spec fn links_placed(s: Seq<char>, links: Seq<Seq<char>>, pos: Seq<int>, i: int) -> bool {
    &&& pos.len() == links.len()
    &&& forall|k: int|
        0 <= k < links.len() ==> i <= #[trigger] pos[k] && occurs_at(s, wrapped_link(links[k]), pos[k])
            && first_occurrence(links[k], link_close()) is None
    &&& forall|k: int|
        0 <= k < links.len() - 1 ==> #[trigger] pos[k] + wrapped_link(links[k]).len() <= pos[k + 1]
}

proof fn lemma_links_from_placed(s: Seq<char>, i: int) -> (pos: Seq<int>)
    requires
        0 <= i,
    ensures
        links_placed(s, prose_links_from(s, i), pos, i),
    decreases s.len() - i,
{
    if 0 <= i && i + 1 < s.len() {
        match link_end(s, i) {
            Some(end) => {
                let t = s.skip(i + 2);
                let kk = choose|kk: int| #[trigger] is_first_occurrence(t, link_close(), kk);
                assert(occurs_at(t, link_close(), kk));
                let rest_pos = lemma_links_from_placed(s, i + 4 + end);
                let inner = s.subrange(i + 2, i + 2 + end);
                let rest = prose_links_from(s, i + 4 + end);
                assert(first_occurrence(inner, link_close()) is None) by {
                    if first_occurrence(inner, link_close()) is Some {
                        let j = choose|j: int| is_first_occurrence(inner, link_close(), j);
                        assert(occurs_at(inner, link_close(), j));
                        assert(t.subrange(j, j + 2) =~= inner.subrange(j, j + 2));
                        assert(occurs_at(t, link_close(), j));
                    }
                }
                assert(s.subrange(i, i + end + 4) =~= wrapped_link(inner)) by {
                    assert(t.subrange(end, end + 2) =~= s.subrange(i + 2 + end, i + 4 + end));
                }
                if is_link_text(inner) {
                    let pos = seq![i] + rest_pos;
                    assert(prose_links_from(s, i) == seq![inner] + rest);
                    assert forall|k: int| 0 <= k < (seq![inner] + rest).len() implies i <= #[trigger] pos[k]
                        && occurs_at(s, wrapped_link((seq![inner] + rest)[k]), pos[k])
                        && first_occurrence((seq![inner] + rest)[k], link_close()) is None by {
                        if k > 0 {
                            assert(pos[k] == rest_pos[k - 1]);
                            assert((seq![inner] + rest)[k] == rest[k - 1]);
                        }
                    }
                    assert forall|k: int| 0 <= k < (seq![inner] + rest).len() - 1 implies #[trigger] pos[k]
                        + wrapped_link((seq![inner] + rest)[k]).len() <= pos[k + 1] by {
                        if k > 0 {
                            assert(pos[k] == rest_pos[k - 1]);
                            assert(pos[k + 1] == rest_pos[k]);
                            assert((seq![inner] + rest)[k] == rest[k - 1]);
                        } else {
                            assert(pos[1] == rest_pos[0]);
                        }
                    }
                    pos
                } else {
                    assert(prose_links_from(s, i) =~= rest);
                    rest_pos
                }
            },
            None => {
                let pos = lemma_links_from_placed(s, i + 1);
                assert(prose_links_from(s, i) == prose_links_from(s, i + 1));
                pos
            },
        }
    } else {
        assert(prose_links_from(s, i) =~= Seq::<Seq<char>>::empty());
        Seq::empty()
    }
}

/// Every prose link found in a body is written `[[x]]` in it, holds no `]]`, and the links
/// come in the order of their positions in the body, without overlapping.
pub proof fn law_prose_links_stand_in_body(body: Seq<char>)
    ensures
        exists|pos: Seq<int>| links_placed(body, prose_links(body), pos, 0),
{
    let pos = lemma_links_from_placed(body, 0);
    assert(links_placed(body, prose_links(body), pos, 0));
}

/// `idx` places the elements of `a` in `b`, in order: `a[k] == b[idx[k]]` with rising `idx`.
pub open spec fn places_in_order<A>(a: Seq<A>, b: Seq<A>, idx: Seq<int>) -> bool {
    &&& idx.len() == a.len()
    &&& forall|k: int| 0 <= k < a.len() ==> 0 <= #[trigger] idx[k] < b.len() && b[idx[k]] == a[k]
    &&& forall|k: int, l: int| 0 <= k < l < a.len() ==> #[trigger] idx[k] < #[trigger] idx[l]
}

/// `a` is a subsequence of `b`: its elements stand in `b` in the same order.
pub open spec fn is_subsequence<A>(a: Seq<A>, b: Seq<A>) -> bool {
    exists|idx: Seq<int>| places_in_order(a, b, idx)
}

/// Filtering by a stronger predicate keeps a subsequence.
proof fn lemma_filter_subsequence<A>(s: Seq<A>, p: spec_fn(A) -> bool, q: spec_fn(A) -> bool) -> (idx: Seq<int>)
    requires
        forall|x: A| #[trigger] q(x) ==> p(x),
    ensures
        places_in_order(s.filter(q), s.filter(p), idx),
    decreases s.len(),
{
    if s.len() == 0 {
        assert(s.filter(q) =~= Seq::<A>::empty()) by {
            reveal(Seq::filter);
        }
        Seq::empty()
    } else {
        let prev = s.drop_last();
        let x = s.last();
        let idx0 = lemma_filter_subsequence(prev, p, q);
        assert(s =~= prev.push(x));
        prev.lemma_filter_push(x, p);
        prev.lemma_filter_push(x, q);
        let a0 = prev.filter(q);
        let b0 = prev.filter(p);
        if q(x) {
            let idx = idx0.push(b0.len() as int);
            assert(s.filter(q) == a0.push(x));
            assert(s.filter(p) == b0.push(x));
            assert forall|k: int| 0 <= k < a0.push(x).len() implies 0 <= #[trigger] idx[k]
                < b0.push(x).len() && b0.push(x)[idx[k]] == a0.push(x)[k] by {
                if k < a0.len() {
                    assert(idx[k] == idx0[k]);
                }
            }
            assert forall|k: int, l: int| 0 <= k < l < a0.push(x).len() implies #[trigger] idx[k]
                < #[trigger] idx[l] by {
                if l < a0.len() {
                    assert(idx[k] == idx0[k] && idx[l] == idx0[l]);
                } else {
                    assert(idx[k] == idx0[k]);
                }
            }
            idx
        } else {
            assert(s.filter(q) == a0);
            if p(x) {
                assert(s.filter(p) == b0.push(x));
                assert forall|k: int| 0 <= k < a0.len() implies 0 <= #[trigger] idx0[k]
                    < b0.push(x).len() && b0.push(x)[idx0[k]] == a0[k] by {}
            }
            idx0
        }
    }
}

/// Adding edges never creates an orphan, and keeps the order: of two graphs with the same
/// nodes, where every edge of the first is an edge of the second, the orphans of the second
/// are a subsequence of the orphans of the first.
pub proof fn law_more_edges_orphans_subsequence(g1: Graph, g2: Graph)
    requires
        g1.nodes@ == g2.nodes@,
        forall|k: int| 0 <= k < g1.edges@.len() ==> g2.edges@.contains(#[trigger] g1.edges@[k]),
    ensures
        is_subsequence(orphan_addrs(g2), orphan_addrs(g1)),
{
    let addrs = g2.nodes@.map_values(|n: Node| node_addr(n));
    let p2 = |x: Seq<char>| !edge_targets(g2).contains(x);
    let p1 = |x: Seq<char>| !edge_targets(g1).contains(x);
    assert(g1.nodes@.map_values(|n: Node| node_addr(n)) == addrs);
    assert forall|a: Seq<char>| #[trigger] p2(a) implies p1(a) by {
        if edge_targets(g1).contains(a) {
            let k = choose|k: int| 0 <= k < edge_targets(g1).len() && edge_targets(g1)[k] == a;
            let e = g1.edges@[k];
            assert(g2.edges@.contains(e));
            let k2 = choose|k2: int| 0 <= k2 < g2.edges@.len() && g2.edges@[k2] == e;
            assert(edge_targets(g2)[k2] == a);
        }
    }
    let idx = lemma_filter_subsequence(addrs, p1, p2);
    assert(places_in_order(orphan_addrs(g2), orphan_addrs(g1), idx));
}

} // verus!
