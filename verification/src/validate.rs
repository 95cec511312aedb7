//! Validation levels L1 (referential integrity) and L2 (per-type required fields).
use vstd::prelude::*;
use crate::ids::{is_valid_addr, valid_addr};
use crate::model::{
    addr_of, addresses, finding, finding_views, mk_finding, Finding, FindingView, Resource,
    Workspace,
};
use crate::text::str_eq;
use crate::yaml::{value_seq, value_str, YamlValue};

verus! {

/// The findings for one reference `v` held in `field` of the resource at `addr`: it must
/// be a string, a `type/id` address, and the address of a resource in `addrs`.
pub open spec fn ref_findings(
    addr: Seq<char>,
    addrs: Seq<Seq<char>>,
    field: Seq<char>,
    v: YamlValue,
) -> Seq<FindingView> {
    match value_str(v) {
        Some(s) => if !is_valid_addr(s) {
            seq![
                mk_finding(
                    "L1"@,
                    "error"@,
                    "invalid-ref"@,
                    Some(addr),
                    Some(field),
                    Some(s),
                    "'"@ + s + "' is not a type/id reference"@,
                ),
            ]
        } else if !addrs.contains(s) {
            seq![
                mk_finding(
                    "L1"@,
                    "error"@,
                    "unresolved-ref"@,
                    Some(addr),
                    Some(field),
                    Some(s),
                    addr + " → "@ + field + ": '"@ + s + "' does not exist"@,
                ),
            ]
        } else {
            Seq::empty()
        },
        None => seq![
            mk_finding(
                "L1"@,
                "error"@,
                "invalid-ref"@,
                Some(addr),
                Some(field),
                None,
                field + " must be a string reference"@,
            ),
        ],
    }
}

/// The findings for a single-reference field (`owner`, `executed_by`) of `r`.
pub open spec fn single_ref_findings(
    r: Resource,
    addrs: Seq<Seq<char>>,
    field: Seq<char>,
) -> Seq<FindingView> {
    match r.fields.get_spec(field) {
        Some(v) => ref_findings(addr_of(r), addrs, field, v),
        None => Seq::empty(),
    }
}

/// The findings for a list-of-references field (`serves`, `policies`) of `r`.
pub open spec fn list_ref_findings(
    r: Resource,
    addrs: Seq<Seq<char>>,
    field: Seq<char>,
) -> Seq<FindingView> {
    match r.fields.get_spec(field) {
        Some(v) => match value_seq(v) {
            Some(items) => items.map_values(
                |item: YamlValue| ref_findings(addr_of(r), addrs, field, item),
            ).flatten(),
            None => seq![
                mk_finding(
                    "L1"@,
                    "error"@,
                    "invalid-ref"@,
                    Some(addr_of(r)),
                    Some(field),
                    None,
                    field + " must be a list of references"@,
                ),
            ],
        },
        None => Seq::empty(),
    }
}

/// The warning for a prose link `p` of the resource at `addr`, if it does not resolve.
pub open spec fn prose_link_findings(
    addr: Seq<char>,
    addrs: Seq<Seq<char>>,
    p: Seq<char>,
) -> Seq<FindingView> {
    if addrs.contains(p) {
        Seq::empty()
    } else {
        seq![
            mk_finding(
                "L1"@,
                "warning"@,
                "unresolved-prose-ref"@,
                Some(addr),
                None,
                Some(p),
                "prose link [["@ + p + "]] does not resolve"@,
            ),
        ]
    }
}

/// The warnings for the unresolved prose links of `r`.
pub open spec fn prose_findings(r: Resource, addrs: Seq<Seq<char>>) -> Seq<FindingView> {
    r.prose_refs@.map_values(|p: String| prose_link_findings(addr_of(r), addrs, p@)).flatten()
}

/// The L2 error when `r` has type `ty` but no field `req`.
pub open spec fn required_findings(r: Resource, ty: Seq<char>, req: Seq<char>) -> Seq<
    FindingView,
> {
    if r.resource_type@ == ty && r.fields.get_spec(req) is None {
        seq![
            mk_finding(
                "L2"@,
                "error"@,
                "missing-required-field"@,
                Some(addr_of(r)),
                Some(req),
                None,
                "type '"@ + ty + "' requires field '"@ + req + "'"@,
            ),
        ]
    } else {
        Seq::empty()
    }
}

/// All findings for one resource, in the order they are reported.
pub open spec fn resource_findings(r: Resource, addrs: Seq<Seq<char>>) -> Seq<FindingView> {
    single_ref_findings(r, addrs, "owner"@) + single_ref_findings(r, addrs, "executed_by"@)
        + list_ref_findings(r, addrs, "serves"@) + list_ref_findings(r, addrs, "policies"@)
        + prose_findings(r, addrs) + required_findings(r, "process"@, "owner"@)
        + required_findings(r, "goal"@, "owner"@)
}

/// All findings of validation levels L1 and L2 for a set of resources.
pub open spec fn validation_findings(rs: Seq<Resource>) -> Seq<FindingView> {
    rs.map_values(|r: Resource| resource_findings(r, addresses(rs))).flatten()
}

/// Appends a finding.
pub fn push_finding(out: &mut Vec<Finding>, f: Finding)
    ensures
        finding_views(final(out)@) == finding_views(old(out)@).push(f@),
{
    let ghost f_view = f@;
    out.push(f);
    assert(finding_views(out@) =~= finding_views(old(out)@).push(f_view));
}

/// Whether `s` is among the strings of `v`.
pub fn contains_str(v: &Vec<String>, s: &str) -> (b: bool)
    ensures
        b == v.deep_view().contains(s@),
{
    let mut i: usize = 0;
    while i < v.len()
        invariant
            i <= v@.len(),
            forall|j: int| 0 <= j < i ==> v.deep_view()[j] != s@,
        decreases v@.len() - i,
    {
        if str_eq(v[i].as_str(), s) {
            assert(v.deep_view()[i as int] == s@);
            return true;
        }
        i = i + 1;
    }
    false
}

/// The addresses of all resources of the workspace.
pub fn resource_addresses(rs: &Vec<Resource>) -> (out: Vec<String>)
    ensures
        out.deep_view() == addresses(rs@),
{
    let mut out: Vec<String> = Vec::new();
    let mut i: usize = 0;
    while i < rs.len()
        invariant
            i <= rs@.len(),
            out.deep_view() == addresses(rs@.take(i as int)),
        decreases rs@.len() - i,
    {
        let a = rs[i].addr();
        let ghost before = out.deep_view();
        let ghost a_view = a@;
        out.push(a);
        assert(out.deep_view() =~= before.push(a_view));
        assert(rs@.take(i + 1) =~= rs@.take(i as int).push(rs@[i as int]));
        assert(addresses(rs@.take(i + 1)) =~= addresses(rs@.take(i as int)).push(
            addr_of(rs@[i as int]),
        ));
        i = i + 1;
    }
    assert(rs@.take(rs@.len() as int) =~= rs@);
    out
}

/// Checks one reference value and appends its findings.
fn check_ref(
    out: &mut Vec<Finding>,
    addr: &String,
    addrs: &Vec<String>,
    field: &str,
    v: &YamlValue,
)
    ensures
        finding_views(final(out)@) == finding_views(old(out)@) + ref_findings(
            addr@,
            addrs.deep_view(),
            field@,
            *v,
        ),
{
    match v.as_str() {
        Some(s) => {
            if !valid_addr(s.as_str()) {
                let mut m = "'".to_owned();
                m.append(s.as_str());
                m.append("' is not a type/id reference");
                let f = finding(
                    "L1",
                    "error",
                    "invalid-ref",
                    Some(addr.clone()),
                    Some(field),
                    Some(s.as_str()),
                    m,
                );
                push_finding(out, f);
            } else if !contains_str(addrs, s.as_str()) {
                let mut m = addr.clone();
                m.append(" → ");
                m.append(field);
                m.append(": '");
                m.append(s.as_str());
                m.append("' does not exist");
                let f = finding(
                    "L1",
                    "error",
                    "unresolved-ref",
                    Some(addr.clone()),
                    Some(field),
                    Some(s.as_str()),
                    m,
                );
                push_finding(out, f);
            } else {
                assert(finding_views(out@) =~= finding_views(out@) + Seq::<FindingView>::empty());
            }
        },
        None => {
            let mut m = field.to_owned();
            m.append(" must be a string reference");
            let f = finding("L1", "error", "invalid-ref", Some(addr.clone()), Some(field), None, m);
            push_finding(out, f);
        },
    }
}

/// Checks a single-reference field of `r`.
fn check_single_field(out: &mut Vec<Finding>, r: &Resource, addr: &String, addrs: &Vec<String>, field: &str)
    requires
        addr@ == addr_of(*r),
    ensures
        finding_views(final(out)@) == finding_views(old(out)@) + single_ref_findings(
            *r,
            addrs.deep_view(),
            field@,
        ),
{
    match r.fields.get(field) {
        Some(v) => check_ref(out, addr, addrs, field, v),
        None => {
            assert(finding_views(out@) =~= finding_views(out@) + Seq::<FindingView>::empty());
        },
    }
}

/// Checks a list-of-references field of `r`.
fn check_list_field(out: &mut Vec<Finding>, r: &Resource, addr: &String, addrs: &Vec<String>, field: &str)
    requires
        addr@ == addr_of(*r),
    ensures
        finding_views(final(out)@) == finding_views(old(out)@) + list_ref_findings(
            *r,
            addrs.deep_view(),
            field@,
        ),
{
    match r.fields.get(field) {
        Some(v) => match v.as_sequence() {
            Some(items) => {
                let ghost start = finding_views(out@);
                let ghost f = |item: YamlValue| ref_findings(addr_of(*r), addrs.deep_view(), field@, item);
                let mut i: usize = 0;
                while i < items.len()
                    invariant
                        i <= items@.len(),
                        f == (|item: YamlValue| ref_findings(addr_of(*r), addrs.deep_view(), field@, item)),
                        addr@ == addr_of(*r),
                        finding_views(out@) == start + items@.take(i as int).map_values(f).flatten(),
                    decreases items@.len() - i,
                {
                    check_ref(out, addr, addrs, field, &items[i]);
                    proof {
                        assert(items@.take(i + 1) =~= items@.take(i as int).push(items@[i as int]));
                        assert(items@.take(i + 1).map_values(f) =~= items@.take(i as int).map_values(
                            f,
                        ).push(f(items@[i as int])));
                        items@.take(i as int).map_values(f).lemma_flatten_push(f(items@[i as int]));
                    }
                    i = i + 1;
                }
                assert(items@.take(items@.len() as int) =~= items@);
            },
            None => {
                let mut m = field.to_owned();
                m.append(" must be a list of references");
                let fd = finding("L1", "error", "invalid-ref", Some(addr.clone()), Some(field), None, m);
                push_finding(out, fd);
            },
        },
        None => {
            assert(finding_views(out@) =~= finding_views(out@) + Seq::<FindingView>::empty());
        },
    }
}

/// Checks the prose links of `r`.
fn check_prose_links(out: &mut Vec<Finding>, r: &Resource, addr: &String, addrs: &Vec<String>)
    requires
        addr@ == addr_of(*r),
    ensures
        finding_views(final(out)@) == finding_views(old(out)@) + prose_findings(*r, addrs.deep_view()),
{
    let ghost start = finding_views(out@);
    let ghost f = |p: String| prose_link_findings(addr_of(*r), addrs.deep_view(), p@);
    let mut i: usize = 0;
    while i < r.prose_refs.len()
        invariant
            i <= r.prose_refs@.len(),
            f == (|p: String| prose_link_findings(addr_of(*r), addrs.deep_view(), p@)),
            addr@ == addr_of(*r),
            finding_views(out@) == start + r.prose_refs@.take(i as int).map_values(f).flatten(),
        decreases r.prose_refs@.len() - i,
    {
        let p = &r.prose_refs[i];
        if !contains_str(addrs, p.as_str()) {
            let mut m = "prose link [[".to_owned();
            m.append(p.as_str());
            m.append("]] does not resolve");
            let fd = finding(
                "L1",
                "warning",
                "unresolved-prose-ref",
                Some(addr.clone()),
                None,
                Some(p.as_str()),
                m,
            );
            push_finding(out, fd);
        }
        proof {
            let ps = r.prose_refs@;
            assert(ps.take(i + 1) =~= ps.take(i as int).push(ps[i as int]));
            assert(ps.take(i + 1).map_values(f) =~= ps.take(i as int).map_values(f).push(f(ps[i as int])));
            ps.take(i as int).map_values(f).lemma_flatten_push(f(ps[i as int]));
        }
        i = i + 1;
    }
    assert(r.prose_refs@.take(r.prose_refs@.len() as int) =~= r.prose_refs@);
}

/// Checks that a resource of type `ty` has the field `req`.
fn check_required(out: &mut Vec<Finding>, r: &Resource, addr: &String, ty: &str, req: &str)
    requires
        addr@ == addr_of(*r),
    ensures
        finding_views(final(out)@) == finding_views(old(out)@) + required_findings(*r, ty@, req@),
{
    if str_eq(r.resource_type.as_str(), ty) && !r.fields.contains_key(req) {
        let mut m = "type '".to_owned();
        m.append(ty);
        m.append("' requires field '");
        m.append(req);
        m.append("'");
        let fd = finding("L2", "error", "missing-required-field", Some(addr.clone()), Some(req), None, m);
        push_finding(out, fd);
    } else {
        assert(finding_views(out@) =~= finding_views(out@) + Seq::<FindingView>::empty());
    }
}

/// Appends all findings for one resource.
fn check_resource(out: &mut Vec<Finding>, r: &Resource, addrs: &Vec<String>)
    ensures
        finding_views(final(out)@) == finding_views(old(out)@) + resource_findings(
            *r,
            addrs.deep_view(),
        ),
{
    let ghost a = addrs.deep_view();
    let ghost start = finding_views(out@);
    let addr = r.addr();
    check_single_field(out, r, &addr, addrs, "owner");
    check_single_field(out, r, &addr, addrs, "executed_by");
    check_list_field(out, r, &addr, addrs, "serves");
    check_list_field(out, r, &addr, addrs, "policies");
    check_prose_links(out, r, &addr, addrs);
    check_required(out, r, &addr, "process", "owner");
    check_required(out, r, &addr, "goal", "owner");
    assert(finding_views(out@) =~= start + resource_findings(*r, a));
}

/// Runs validation levels L1 and L2 over the loaded resources and appends the findings.
pub fn validate(ws: &mut Workspace)
    ensures
        final(ws).root == old(ws).root,
        final(ws).resources == old(ws).resources,
        finding_views(final(ws).findings@) == finding_views(old(ws).findings@)
            + validation_findings(old(ws).resources@),
{
    let addrs = resource_addresses(&ws.resources);
    let mut new: Vec<Finding> = Vec::new();
    let ghost rs = ws.resources@;
    let ghost f = |r: Resource| resource_findings(r, addresses(rs));
    let mut i: usize = 0;
    while i < ws.resources.len()
        invariant
            i <= rs.len(),
            rs == ws.resources@,
            addrs.deep_view() == addresses(rs),
            f == (|r: Resource| resource_findings(r, addresses(rs))),
            finding_views(new@) == rs.take(i as int).map_values(f).flatten(),
        decreases rs.len() - i,
    {
        check_resource(&mut new, &ws.resources[i], &addrs);
        proof {
            assert(rs.take(i + 1) =~= rs.take(i as int).push(rs[i as int]));
            assert(rs.take(i + 1).map_values(f) =~= rs.take(i as int).map_values(f).push(f(rs[i as int])));
            rs.take(i as int).map_values(f).lemma_flatten_push(f(rs[i as int]));
        }
        i = i + 1;
    }
    assert(rs.take(rs.len() as int) =~= rs);
    let ghost before = finding_views(ws.findings@);
    let ghost added = finding_views(new@);
    ws.findings.append(&mut new);
    assert(finding_views(ws.findings@) =~= before + added);
}

} // verus!
