//! Properties of validation levels L1 and L2: which findings it reports, for exactly which
//! references, prose links and envelopes, and their shape.
use vstd::prelude::*;
use crate::ids::is_valid_addr;
use crate::laws::{lemma_concat_member, lemma_flatten_contains, lemma_flatten_member, resolves};
use crate::model::{addr_of, addresses, mk_finding, FindingView, Resource};
use crate::validate::{
    list_ref_findings, prose_findings, prose_link_findings, ref_findings, required_findings,
    resource_findings, single_ref_findings, validation_findings,
};
use crate::yaml::{value_seq, value_str, YamlValue};

verus! {

/// The codes and words of validation findings are distinct strings.
pub proof fn lemma_validation_words_distinct()
    ensures
        "invalid-ref"@ != "unresolved-ref"@,
        "invalid-ref"@ != "unresolved-prose-ref"@,
        "invalid-ref"@ != "missing-required-field"@,
        "unresolved-ref"@ != "unresolved-prose-ref"@,
        "unresolved-ref"@ != "missing-required-field"@,
        "unresolved-prose-ref"@ != "missing-required-field"@,
        "error"@ != "warning"@,
        "L1"@ != "L2"@,
        "owner"@ != "executed_by"@,
        "owner"@ != "serves"@,
        "owner"@ != "policies"@,
        "executed_by"@ != "serves"@,
        "executed_by"@ != "policies"@,
        "serves"@ != "policies"@,
{
    reveal_strlit("invalid-ref");
    reveal_strlit("unresolved-ref");
    reveal_strlit("unresolved-prose-ref");
    reveal_strlit("missing-required-field");
    reveal_strlit("error");
    reveal_strlit("warning");
    reveal_strlit("L1");
    reveal_strlit("L2");
    reveal_strlit("owner");
    reveal_strlit("executed_by");
    reveal_strlit("serves");
    reveal_strlit("policies");
    assert("invalid-ref"@.len() != "unresolved-ref"@.len());
    assert("invalid-ref"@.len() != "unresolved-prose-ref"@.len());
    assert("invalid-ref"@.len() != "missing-required-field"@.len());
    assert("unresolved-ref"@.len() != "unresolved-prose-ref"@.len());
    assert("unresolved-ref"@.len() != "missing-required-field"@.len());
    assert("unresolved-prose-ref"@.len() != "missing-required-field"@.len());
    assert("error"@[0] != "warning"@[0]);
    assert("L1"@[1] != "L2"@[1]);
    assert("owner"@.len() != "executed_by"@.len());
    assert("owner"@.len() != "serves"@.len());
    assert("owner"@.len() != "policies"@.len());
    assert("executed_by"@.len() != "serves"@.len());
    assert("executed_by"@.len() != "policies"@.len());
    assert("serves"@.len() != "policies"@.len());
}

/// A reference finding about field `f` of the resource at `a`.
pub open spec fn is_ref_finding(x: FindingView, a: Seq<char>, f: Seq<char>) -> bool {
    &&& x.resource == Some(a)
    &&& x.field == Some(f)
    &&& x.level == "L1"@
    &&& x.severity == "error"@
    &&& (x.code == "invalid-ref"@ || x.code == "unresolved-ref"@)
}

/// The unresolved-ref error for the valid but unknown address `s`.
pub open spec fn unresolved_ref(a: Seq<char>, f: Seq<char>, s: Seq<char>) -> FindingView {
    mk_finding(
        "L1"@,
        "error"@,
        "unresolved-ref"@,
        Some(a),
        Some(f),
        Some(s),
        a + " → "@ + f + ": '"@ + s + "' does not exist"@,
    )
}

/// What a reference finding says of the reference `v` it was reported for.
proof fn lemma_ref_findings_member(
    a: Seq<char>,
    addrs: Seq<Seq<char>>,
    f: Seq<char>,
    v: YamlValue,
    x: FindingView,
)
    requires
        ref_findings(a, addrs, f, v).contains(x),
    ensures
        is_ref_finding(x, a, f),
        match value_str(v) {
            Some(s) => x.target == Some(s) && (!is_valid_addr(s) || !addrs.contains(s)) && (x.code
                == "unresolved-ref"@ <==> (is_valid_addr(s) && !addrs.contains(s))) && (x.code
                == "unresolved-ref"@ ==> x == unresolved_ref(a, f, s)),
            None => x.target is None && x.code == "invalid-ref"@,
        },
{
    lemma_validation_words_distinct();
    let k = choose|k: int|
        0 <= k < ref_findings(a, addrs, f, v).len() && ref_findings(a, addrs, f, v)[k] == x;
    assert(ref_findings(a, addrs, f, v).len() == 1);
    assert(k == 0);
}

/// A reference that does not resolve gets a finding.
proof fn lemma_ref_findings_present(
    a: Seq<char>,
    addrs: Seq<Seq<char>>,
    f: Seq<char>,
    v: YamlValue,
)
    requires
        match value_str(v) {
            Some(s) => !is_valid_addr(s) || !addrs.contains(s),
            None => true,
        },
    ensures
        ref_findings(a, addrs, f, v).len() == 1,
        ref_findings(a, addrs, f, v).contains(ref_findings(a, addrs, f, v)[0]),
{
    assert(ref_findings(a, addrs, f, v).len() == 1);
    assert(ref_findings(a, addrs, f, v)[0] == ref_findings(a, addrs, f, v)[0]);
}

/// Where a finding of one resource comes from.
pub open spec fn from_part(r: Resource, addrs: Seq<Seq<char>>, x: FindingView) -> bool {
    ||| single_ref_findings(r, addrs, "owner"@).contains(x)
    ||| single_ref_findings(r, addrs, "executed_by"@).contains(x)
    ||| list_ref_findings(r, addrs, "serves"@).contains(x)
    ||| list_ref_findings(r, addrs, "policies"@).contains(x)
    ||| prose_findings(r, addrs).contains(x)
    ||| required_findings(r, "process"@, "owner"@).contains(x)
    ||| required_findings(r, "goal"@, "owner"@).contains(x)
}

proof fn lemma_resource_findings_parts(r: Resource, addrs: Seq<Seq<char>>, x: FindingView)
    requires
        resource_findings(r, addrs).contains(x),
    ensures
        from_part(r, addrs, x),
{
    let p1 = single_ref_findings(r, addrs, "owner"@);
    let p2 = single_ref_findings(r, addrs, "executed_by"@);
    let p3 = list_ref_findings(r, addrs, "serves"@);
    let p4 = list_ref_findings(r, addrs, "policies"@);
    let p5 = prose_findings(r, addrs);
    let p6 = required_findings(r, "process"@, "owner"@);
    let p7 = required_findings(r, "goal"@, "owner"@);
    lemma_concat_member(p1 + p2 + p3 + p4 + p5 + p6, p7, x);
    if (p1 + p2 + p3 + p4 + p5 + p6).contains(x) {
        lemma_concat_member(p1 + p2 + p3 + p4 + p5, p6, x);
        if (p1 + p2 + p3 + p4 + p5).contains(x) {
            lemma_concat_member(p1 + p2 + p3 + p4, p5, x);
            if (p1 + p2 + p3 + p4).contains(x) {
                lemma_concat_member(p1 + p2 + p3, p4, x);
                if (p1 + p2 + p3).contains(x) {
                    lemma_concat_member(p1 + p2, p3, x);
                    if (p1 + p2).contains(x) {
                        lemma_concat_member(p1, p2, x);
                    }
                }
            }
        }
    }
}

/// Each part of a resource's findings is in the resource's findings.
proof fn lemma_part_in_resource_findings(r: Resource, addrs: Seq<Seq<char>>, x: FindingView)
    requires
        from_part(r, addrs, x),
    ensures
        resource_findings(r, addrs).contains(x),
{
    let p1 = single_ref_findings(r, addrs, "owner"@);
    let p2 = single_ref_findings(r, addrs, "executed_by"@);
    let p3 = list_ref_findings(r, addrs, "serves"@);
    let p4 = list_ref_findings(r, addrs, "policies"@);
    let p5 = prose_findings(r, addrs);
    let p6 = required_findings(r, "process"@, "owner"@);
    let p7 = required_findings(r, "goal"@, "owner"@);
    let all = p1 + p2 + p3 + p4 + p5 + p6 + p7;
    assert(all == resource_findings(r, addrs));
    if p1.contains(x) {
        let k = choose|k: int| 0 <= k < p1.len() && p1[k] == x;
        assert(all[k] == x);
    } else if p2.contains(x) {
        let k = choose|k: int| 0 <= k < p2.len() && p2[k] == x;
        assert(all[p1.len() + k] == x);
    } else if p3.contains(x) {
        let k = choose|k: int| 0 <= k < p3.len() && p3[k] == x;
        assert(all[p1.len() + p2.len() + k] == x);
    } else if p4.contains(x) {
        let k = choose|k: int| 0 <= k < p4.len() && p4[k] == x;
        assert(all[p1.len() + p2.len() + p3.len() + k] == x);
    } else if p5.contains(x) {
        let k = choose|k: int| 0 <= k < p5.len() && p5[k] == x;
        assert(all[p1.len() + p2.len() + p3.len() + p4.len() + k] == x);
    } else if p6.contains(x) {
        let k = choose|k: int| 0 <= k < p6.len() && p6[k] == x;
        assert(all[p1.len() + p2.len() + p3.len() + p4.len() + p5.len() + k] == x);
    } else {
        let k = choose|k: int| 0 <= k < p7.len() && p7[k] == x;
        assert(all[p1.len() + p2.len() + p3.len() + p4.len() + p5.len() + p6.len() + k] == x);
    }
}

/// A finding of validation is a finding of one of the resources.
pub proof fn lemma_validation_member(rs: Seq<Resource>, x: FindingView) -> (i: int)
    requires
        validation_findings(rs).contains(x),
    ensures
        0 <= i < rs.len(),
        resource_findings(rs[i], addresses(rs)).contains(x),
{
    let parts = rs.map_values(|r: Resource| resource_findings(r, addresses(rs)));
    lemma_flatten_member(parts, x);
    let i = choose|i: int| 0 <= i < parts.len() && #[trigger] parts[i].contains(x);
    assert(parts[i] == resource_findings(rs[i], addresses(rs)));
    i
}

/// A finding of one of the resources is a finding of validation.
pub proof fn lemma_validation_has(rs: Seq<Resource>, i: int, x: FindingView)
    requires
        0 <= i < rs.len(),
        from_part(rs[i], addresses(rs), x),
    ensures
        validation_findings(rs).contains(x),
{
    lemma_part_in_resource_findings(rs[i], addresses(rs), x);
    let parts = rs.map_values(|r: Resource| resource_findings(r, addresses(rs)));
    let fs = resource_findings(rs[i], addresses(rs));
    let k = choose|k: int| 0 <= k < fs.len() && fs[k] == x;
    assert(parts[i] == fs);
    lemma_flatten_contains(parts, i, k);
}

/// What a finding of a list-of-references field says.
proof fn lemma_list_member(r: Resource, addrs: Seq<Seq<char>>, f: Seq<char>, x: FindingView)
    requires
        list_ref_findings(r, addrs, f).contains(x),
    ensures
        is_ref_finding(x, addr_of(r), f),
        r.fields.get_spec(f) matches Some(v) && (value_seq(v) matches Some(items) ==> exists|j: int|
            0 <= j < items.len() && #[trigger] ref_findings(addr_of(r), addrs, f, items[j]).contains(
                x,
            )),
        r.fields.get_spec(f) matches Some(v) && (value_seq(v) is None ==> x.target is None
            && x.code == "invalid-ref"@),
{
    lemma_validation_words_distinct();
    let v = r.fields.get_spec(f)->0;
    match value_seq(v) {
        Some(items) => {
            let parts = items.map_values(
                |item: YamlValue| ref_findings(addr_of(r), addrs, f, item),
            );
            lemma_flatten_member(parts, x);
            let j = choose|j: int| 0 <= j < parts.len() && #[trigger] parts[j].contains(x);
            assert(parts[j] == ref_findings(addr_of(r), addrs, f, items[j]));
            lemma_ref_findings_member(addr_of(r), addrs, f, items[j], x);
        },
        None => {
            let k = choose|k: int|
                0 <= k < list_ref_findings(r, addrs, f).len() && list_ref_findings(r, addrs, f)[k]
                    == x;
            assert(k == 0);
        },
    }
}

/// What a prose-link finding says.
proof fn lemma_prose_member(r: Resource, addrs: Seq<Seq<char>>, x: FindingView)
    requires
        prose_findings(r, addrs).contains(x),
    ensures
        exists|p: Seq<char>|
            r.prose_refs@.map_values(|s: String| s@).contains(p) && !addrs.contains(p) && x
                == unresolved_prose_ref(addr_of(r), p),
{
    let parts = r.prose_refs@.map_values(
        |p: String| prose_link_findings(addr_of(r), addrs, p@),
    );
    lemma_flatten_member(parts, x);
    let j = choose|j: int| 0 <= j < parts.len() && #[trigger] parts[j].contains(x);
    let p = r.prose_refs@[j]@;
    assert(parts[j] == prose_link_findings(addr_of(r), addrs, p));
    assert(r.prose_refs@.map_values(|s: String| s@)[j] == p);
    let k = choose|k: int| 0 <= k < parts[j].len() && parts[j][k] == x;
    assert(k == 0);
}

/// The warning for the unresolved prose link `p` of the resource at `a`.
pub open spec fn unresolved_prose_ref(a: Seq<char>, p: Seq<char>) -> FindingView {
    mk_finding(
        "L1"@,
        "warning"@,
        "unresolved-prose-ref"@,
        Some(a),
        None,
        Some(p),
        "prose link [["@ + p + "]] does not resolve"@,
    )
}

/// The L2 error for a resource of type `ty` without `owner`.
pub open spec fn missing_owner(a: Seq<char>, ty: Seq<char>) -> FindingView {
    mk_finding(
        "L2"@,
        "error"@,
        "missing-required-field"@,
        Some(a),
        Some("owner"@),
        None,
        "type '"@ + ty + "' requires field '"@ + "owner"@ + "'"@,
    )
}

/// A finding as validation reports it about the resource at `a`: level L1 or L2, one of the
/// four validation codes, and a warning exactly for an unresolved prose link (else an error).
pub open spec fn is_validation_finding(x: FindingView, a: Seq<char>) -> bool {
    &&& x.resource == Some(a)
    &&& (x.level == "L1"@ || x.level == "L2"@)
    &&& (x.code == "invalid-ref"@ || x.code == "unresolved-ref"@ || x.code
        == "unresolved-prose-ref"@ || x.code == "missing-required-field"@)
    &&& (x.severity == "error"@ || x.severity == "warning"@)
    &&& (x.severity == "warning"@ <==> x.code == "unresolved-prose-ref"@)
}

/// The shape of a finding of one resource, part by part.
proof fn lemma_part_shape(r: Resource, addrs: Seq<Seq<char>>, x: FindingView)
    requires
        from_part(r, addrs, x),
    ensures
        is_validation_finding(x, addr_of(r)),
        x.code == "unresolved-prose-ref"@ ==> prose_findings(r, addrs).contains(x),
        x.code == "missing-required-field"@ ==> (required_findings(r, "process"@, "owner"@).contains(x)
            || required_findings(r, "goal"@, "owner"@).contains(x)),
        (x.code == "invalid-ref"@ || x.code == "unresolved-ref"@) ==> (single_ref_findings(
            r,
            addrs,
            "owner"@,
        ).contains(x) || single_ref_findings(r, addrs, "executed_by"@).contains(x)
            || list_ref_findings(r, addrs, "serves"@).contains(x) || list_ref_findings(
            r,
            addrs,
            "policies"@,
        ).contains(x)),
{
    lemma_validation_words_distinct();
    let a = addr_of(r);
    if single_ref_findings(r, addrs, "owner"@).contains(x) {
        lemma_ref_findings_member(a, addrs, "owner"@, r.fields.get_spec("owner"@)->0, x);
    } else if single_ref_findings(r, addrs, "executed_by"@).contains(x) {
        lemma_ref_findings_member(
            a,
            addrs,
            "executed_by"@,
            r.fields.get_spec("executed_by"@)->0,
            x,
        );
    } else if list_ref_findings(r, addrs, "serves"@).contains(x) {
        lemma_list_member(r, addrs, "serves"@, x);
    } else if list_ref_findings(r, addrs, "policies"@).contains(x) {
        lemma_list_member(r, addrs, "policies"@, x);
    } else if prose_findings(r, addrs).contains(x) {
        lemma_prose_member(r, addrs, x);
    } else if required_findings(r, "process"@, "owner"@).contains(x) {
        let k = choose|k: int|
            0 <= k < required_findings(r, "process"@, "owner"@).len() && required_findings(
                r,
                "process"@,
                "owner"@,
            )[k] == x;
        assert(k == 0);
    } else {
        let k = choose|k: int|
            0 <= k < required_findings(r, "goal"@, "owner"@).len() && required_findings(
                r,
                "goal"@,
                "owner"@,
            )[k] == x;
        assert(k == 0);
    }
}

/// Every finding of validation has the shape of a validation finding about one of the
/// resources: level L1 or L2, one of the codes `invalid-ref`, `unresolved-ref`,
/// `unresolved-prose-ref`, `missing-required-field`, and severity `warning` exactly for
/// unresolved prose links (`error` otherwise).
pub proof fn law_validation_findings_shape(rs: Seq<Resource>, x: FindingView)
    requires
        validation_findings(rs).contains(x),
    ensures
        exists|i: int| 0 <= i < rs.len() && is_validation_finding(x, #[trigger] addr_of(rs[i])),
{
    let i = lemma_validation_member(rs, x);
    lemma_resource_findings_parts(rs[i], addresses(rs), x);
    lemma_part_shape(rs[i], addresses(rs), x);
}

/// No two resources share an address.
pub open spec fn distinct_addresses(rs: Seq<Resource>) -> bool {
    forall|i: int, j: int|
        0 <= i < j < rs.len() ==> addr_of(#[trigger] rs[i]) != addr_of(#[trigger] rs[j])
}

/// The resource whose findings hold `x`, when addresses are distinct.
proof fn lemma_finding_owner(rs: Seq<Resource>, i: int, x: FindingView)
    requires
        distinct_addresses(rs),
        0 <= i < rs.len(),
        validation_findings(rs).contains(x),
        x.resource == Some(addr_of(rs[i])),
    ensures
        from_part(rs[i], addresses(rs), x),
{
    let j = lemma_validation_member(rs, x);
    lemma_resource_findings_parts(rs[j], addresses(rs), x);
    lemma_part_shape(rs[j], addresses(rs), x);
    if i < j {
        assert(addr_of(rs[i]) != addr_of(rs[j]));
    } else if j < i {
        assert(addr_of(rs[j]) != addr_of(rs[i]));
    }
}

/// A type that must have an `owner` (L2): processes and goals.
pub open spec fn needs_owner(r: Resource) -> bool {
    (r.resource_type@ == "process"@ || r.resource_type@ == "goal"@) && r.fields.get_spec("owner"@)
        is None
}

/// L2, exactly: with distinct addresses, validation reports `missing-required-field` (field
/// `owner`) for a resource if and only if it is a `process` or a `goal` without `owner`, and
/// every such finding is that error for such a resource.
pub proof fn law_required_fields_exactly(rs: Seq<Resource>, i: int)
    requires
        distinct_addresses(rs),
        0 <= i < rs.len(),
    ensures
        validation_findings(rs).contains(missing_owner(addr_of(rs[i]), rs[i].resource_type@))
            <==> needs_owner(rs[i]),
        (exists|x: FindingView|
            #[trigger] validation_findings(rs).contains(x) && x.code == "missing-required-field"@
                && x.resource == Some(addr_of(rs[i]))) <==> needs_owner(rs[i]),
{
    lemma_validation_words_distinct();
    reveal_strlit("process");
    reveal_strlit("goal");
    assert("process"@.len() != "goal"@.len());
    let r = rs[i];
    let a = addr_of(r);
    let addrs = addresses(rs);
    if needs_owner(r) {
        let ty = r.resource_type@;
        let x = missing_owner(a, ty);
        if ty == "process"@ {
            assert(required_findings(r, "process"@, "owner"@)[0] == x);
            assert(required_findings(r, "process"@, "owner"@).contains(x));
        } else {
            assert(required_findings(r, "goal"@, "owner"@)[0] == x);
            assert(required_findings(r, "goal"@, "owner"@).contains(x));
        }
        lemma_validation_has(rs, i, x);
    }
    assert forall|x: FindingView|
        #[trigger] validation_findings(rs).contains(x) && x.code == "missing-required-field"@
            && x.resource == Some(a) implies needs_owner(r) by {
        lemma_finding_owner(rs, i, x);
        lemma_part_shape(r, addrs, x);
        if required_findings(r, "process"@, "owner"@).contains(x) {
            assert(required_findings(r, "process"@, "owner"@).len() > 0);
        } else {
            assert(required_findings(r, "goal"@, "owner"@).len() > 0);
        }
    }
    if validation_findings(rs).contains(missing_owner(a, r.resource_type@)) {
        let x = missing_owner(a, r.resource_type@);
        assert(x.code == "missing-required-field"@);
    }
}

/// Every `missing-required-field` finding is the L2 error for a process or goal without owner.
pub proof fn law_required_findings_are_missing_owners(rs: Seq<Resource>, x: FindingView)
    requires
        validation_findings(rs).contains(x),
        x.code == "missing-required-field"@,
    ensures
        exists|i: int|
            0 <= i < rs.len() && needs_owner(#[trigger] rs[i]) && x == missing_owner(
                addr_of(rs[i]),
                rs[i].resource_type@,
            ),
{
    lemma_validation_words_distinct();
    let i = lemma_validation_member(rs, x);
    let r = rs[i];
    let addrs = addresses(rs);
    lemma_resource_findings_parts(r, addrs, x);
    lemma_part_shape(r, addrs, x);
    if required_findings(r, "process"@, "owner"@).contains(x) {
        assert(required_findings(r, "process"@, "owner"@).len() > 0);
        assert(x == required_findings(r, "process"@, "owner"@)[0]);
    } else {
        assert(required_findings(r, "goal"@, "owner"@).len() > 0);
        assert(x == required_findings(r, "goal"@, "owner"@)[0]);
    }
}

/// L1 prose links, exactly, for every set of resources: validation warns about the prose link
/// `p` of a resource (`unresolved-prose-ref`, target `p`) if and only if no resource has
/// address `p`.
pub proof fn law_prose_links_exactly(rs: Seq<Resource>, i: int, k: int)
    requires
        0 <= i < rs.len(),
        0 <= k < rs[i].prose_refs@.len(),
    ensures
        validation_findings(rs).contains(
            unresolved_prose_ref(addr_of(rs[i]), rs[i].prose_refs@[k]@),
        ) <==> !addresses(rs).contains(rs[i].prose_refs@[k]@),
        (exists|x: FindingView|
            #[trigger] validation_findings(rs).contains(x) && x.code == "unresolved-prose-ref"@
                && x.resource == Some(addr_of(rs[i])) && x.target == Some(
                rs[i].prose_refs@[k]@,
            )) <==> !addresses(rs).contains(rs[i].prose_refs@[k]@),
{
    lemma_validation_words_distinct();
    let r = rs[i];
    let a = addr_of(r);
    let addrs = addresses(rs);
    let p = r.prose_refs@[k]@;
    if !addrs.contains(p) {
        let parts = r.prose_refs@.map_values(
            |q: String| prose_link_findings(addr_of(r), addrs, q@),
        );
        assert(parts[k] == prose_link_findings(a, addrs, p));
        assert(parts[k][0] == unresolved_prose_ref(a, p));
        lemma_flatten_contains(parts, k, 0);
        lemma_validation_has(rs, i, unresolved_prose_ref(a, p));
    }
    assert forall|x: FindingView|
        #[trigger] validation_findings(rs).contains(x) && x.code == "unresolved-prose-ref"@
            && x.target == Some(p) implies !addrs.contains(p) by {
        let j = lemma_validation_member(rs, x);
        lemma_resource_findings_parts(rs[j], addrs, x);
        lemma_part_shape(rs[j], addrs, x);
        lemma_prose_member(rs[j], addrs, x);
    }
    if validation_findings(rs).contains(unresolved_prose_ref(a, p)) {
        assert(unresolved_prose_ref(a, p).code == "unresolved-prose-ref"@);
    }
}

/// Some resource at address `a` is a process or goal without `owner`.
pub open spec fn owner_missing_at(rs: Seq<Resource>, a: Seq<char>) -> bool {
    exists|i: int| 0 <= i < rs.len() && addr_of(rs[i]) == a && needs_owner(#[trigger] rs[i])
}

/// L2 by address, for every set of resources: validation reports `missing-required-field`
/// for address `a` if and only if some resource at `a` is a process or goal without `owner`,
/// and each such resource gets its error.
pub proof fn law_required_fields_at(rs: Seq<Resource>, a: Seq<char>)
    ensures
        (exists|x: FindingView|
            #[trigger] validation_findings(rs).contains(x) && x.code == "missing-required-field"@
                && x.resource == Some(a)) <==> owner_missing_at(rs, a),
        forall|i: int|
            0 <= i < rs.len() && addr_of(rs[i]) == a && needs_owner(#[trigger] rs[i])
                ==> validation_findings(rs).contains(missing_owner(a, rs[i].resource_type@)),
{
    lemma_validation_words_distinct();
    reveal_strlit("process");
    reveal_strlit("goal");
    assert("process"@.len() != "goal"@.len());
    let addrs = addresses(rs);
    assert forall|i: int|
        0 <= i < rs.len() && addr_of(rs[i]) == a && needs_owner(#[trigger] rs[i])
            implies validation_findings(rs).contains(missing_owner(a, rs[i].resource_type@)) by {
        let r = rs[i];
        let x = missing_owner(a, r.resource_type@);
        if r.resource_type@ == "process"@ {
            assert(required_findings(r, "process"@, "owner"@)[0] == x);
            assert(required_findings(r, "process"@, "owner"@).contains(x));
        } else {
            assert(required_findings(r, "goal"@, "owner"@)[0] == x);
            assert(required_findings(r, "goal"@, "owner"@).contains(x));
        }
        lemma_validation_has(rs, i, x);
    }
    if owner_missing_at(rs, a) {
        let i = choose|i: int| 0 <= i < rs.len() && addr_of(rs[i]) == a && needs_owner(#[trigger] rs[i]);
        let x = missing_owner(a, rs[i].resource_type@);
        assert(validation_findings(rs).contains(x));
        assert(x.code == "missing-required-field"@ && x.resource == Some(a));
    }
    assert forall|x: FindingView|
        #[trigger] validation_findings(rs).contains(x) && x.code == "missing-required-field"@
            && x.resource == Some(a) implies owner_missing_at(rs, a) by {
        let j = lemma_validation_member(rs, x);
        let r = rs[j];
        lemma_resource_findings_parts(r, addrs, x);
        lemma_part_shape(r, addrs, x);
        if required_findings(r, "process"@, "owner"@).contains(x) {
            assert(required_findings(r, "process"@, "owner"@).len() > 0);
        } else {
            assert(required_findings(r, "goal"@, "owner"@).len() > 0);
        }
        assert(needs_owner(rs[j]) && addr_of(rs[j]) == a);
    }
}

/// A reference finding about field `f` of `r`, reported for `r`, comes from that field.
proof fn lemma_ref_finding_field(
    r: Resource,
    addrs: Seq<Seq<char>>,
    f: Seq<char>,
    x: FindingView,
)
    requires
        from_part(r, addrs, x),
        x.field == Some(f),
        x.code == "invalid-ref"@ || x.code == "unresolved-ref"@,
        f == "owner"@ || f == "executed_by"@ || f == "serves"@ || f == "policies"@,
    ensures
        f == "owner"@ || f == "executed_by"@ ==> single_ref_findings(r, addrs, f).contains(x),
        f == "serves"@ || f == "policies"@ ==> list_ref_findings(r, addrs, f).contains(x),
{
    lemma_validation_words_distinct();
    let a = addr_of(r);
    lemma_part_shape(r, addrs, x);
    if single_ref_findings(r, addrs, "owner"@).contains(x) {
        lemma_ref_findings_member(a, addrs, "owner"@, r.fields.get_spec("owner"@)->0, x);
    } else if single_ref_findings(r, addrs, "executed_by"@).contains(x) {
        lemma_ref_findings_member(
            a,
            addrs,
            "executed_by"@,
            r.fields.get_spec("executed_by"@)->0,
            x,
        );
    } else if list_ref_findings(r, addrs, "serves"@).contains(x) {
        lemma_list_member(r, addrs, "serves"@, x);
    } else {
        lemma_list_member(r, addrs, "policies"@, x);
    }
}


/// `v` is a string that is a valid address but of no resource in `addrs`.
pub open spec fn dangling(addrs: Seq<Seq<char>>, v: YamlValue) -> bool {
    match value_str(v) {
        Some(s) => is_valid_addr(s) && !addrs.contains(s),
        None => false,
    }
}

/// L1 single references, exactly: with distinct addresses, for the `owner` or `executed_by`
/// value `v` of a resource, validation reports a reference error (`invalid-ref` or
/// `unresolved-ref`) for that field if and only if `v` does not resolve (it is not a string,
/// not a `type/id` address, or no resource has it); it is `unresolved-ref`, with target `v`,
/// exactly when `v` is a valid address that no resource has; each such error is an L1 error
/// whose target is `v` when `v` is a string.
pub proof fn law_single_refs_exactly(rs: Seq<Resource>, i: int, f: Seq<char>)
    requires
        distinct_addresses(rs),
        0 <= i < rs.len(),
        f == "owner"@ || f == "executed_by"@,
        rs[i].fields.get_spec(f) is Some,
    ensures
        (exists|x: FindingView|
            #[trigger] validation_findings(rs).contains(x) && is_ref_finding(x, addr_of(rs[i]), f))
            <==> !resolves(addresses(rs), rs[i].fields.get_spec(f)->0),
        (exists|x: FindingView|
            #[trigger] validation_findings(rs).contains(x) && is_ref_finding(x, addr_of(rs[i]), f)
                && x.code == "unresolved-ref"@) <==> dangling(
            addresses(rs),
            rs[i].fields.get_spec(f)->0,
        ),
        forall|x: FindingView|
            #[trigger] validation_findings(rs).contains(x) && x.resource == Some(addr_of(rs[i]))
                && x.field == Some(f) && (x.code == "invalid-ref"@ || x.code == "unresolved-ref"@)
                ==> is_ref_finding(x, addr_of(rs[i]), f) && (value_str(rs[i].fields.get_spec(f)->0) matches Some(s)
                ==> x.target == Some(s)),
{
    lemma_validation_words_distinct();
    let r = rs[i];
    let a = addr_of(r);
    let addrs = addresses(rs);
    let v = r.fields.get_spec(f)->0;
    assert forall|x: FindingView|
        #[trigger] validation_findings(rs).contains(x) && x.resource == Some(a) && x.field == Some(f)
            && (x.code == "invalid-ref"@ || x.code == "unresolved-ref"@) implies is_ref_finding(x, a, f)
        && !resolves(addrs, v) && (x.code == "unresolved-ref"@ ==> dangling(addrs, v)) && (value_str(v) matches Some(s)
        ==> x.target == Some(s)) by {
        lemma_finding_owner(rs, i, x);
        lemma_ref_finding_field(r, addrs, f, x);
        lemma_ref_findings_member(a, addrs, f, v, x);
    }
    if !resolves(addrs, v) {
        lemma_ref_findings_present(a, addrs, f, v);
        let x = ref_findings(a, addrs, f, v)[0];
        assert(single_ref_findings(r, addrs, f).contains(x));
        lemma_validation_has(rs, i, x);
        lemma_ref_findings_member(a, addrs, f, v, x);
        assert(validation_findings(rs).contains(x) && is_ref_finding(x, a, f));
    }
}

/// L1 lists of references, exactly: with distinct addresses, for an item `s` (a string) of the
/// `serves` or `policies` list of a resource, validation reports a reference error with target
/// `s` for that field if and only if `s` is not a `type/id` address or no resource has it; it
/// is `unresolved-ref` exactly when `s` is a valid address that no resource has. An item that
/// is not a string gets an `invalid-ref` error without target.
pub proof fn law_list_refs_exactly(rs: Seq<Resource>, i: int, f: Seq<char>, j: int)
    requires
        distinct_addresses(rs),
        0 <= i < rs.len(),
        f == "serves"@ || f == "policies"@,
        rs[i].fields.get_spec(f) matches Some(v) && value_seq(v) matches Some(items) && 0 <= j
            < items.len(),
    ensures
        ({
            let item = value_seq(rs[i].fields.get_spec(f)->0)->0[j];
            match value_str(item) {
                Some(s) => ((exists|x: FindingView|
                    #[trigger] validation_findings(rs).contains(x) && is_ref_finding(
                        x,
                        addr_of(rs[i]),
                        f,
                    ) && x.target == Some(s)) <==> (!is_valid_addr(s) || !addresses(rs).contains(s)))
                    && ((exists|x: FindingView|
                    #[trigger] validation_findings(rs).contains(x) && is_ref_finding(
                        x,
                        addr_of(rs[i]),
                        f,
                    ) && x.target == Some(s) && x.code == "unresolved-ref"@) <==> (is_valid_addr(s)
                    && !addresses(rs).contains(s))),
                None => exists|x: FindingView|
                    #[trigger] validation_findings(rs).contains(x) && is_ref_finding(
                        x,
                        addr_of(rs[i]),
                        f,
                    ) && x.target is None && x.code == "invalid-ref"@,
            }
        }),
{
    lemma_validation_words_distinct();
    let r = rs[i];
    let a = addr_of(r);
    let addrs = addresses(rs);
    let v = r.fields.get_spec(f)->0;
    let items = value_seq(v)->0;
    let item = items[j];
    let parts = items.map_values(|it: YamlValue| ref_findings(addr_of(r), addrs, f, it));
    let present = match value_str(item) {
        Some(s) => !is_valid_addr(s) || !addrs.contains(s),
        None => true,
    };
    if present {
        lemma_ref_findings_present(a, addrs, f, item);
        let x = ref_findings(a, addrs, f, item)[0];
        assert(parts[j] == ref_findings(a, addrs, f, item));
        lemma_flatten_contains(parts, j, 0);
        assert(list_ref_findings(r, addrs, f).contains(x));
        lemma_validation_has(rs, i, x);
        lemma_ref_findings_member(a, addrs, f, item, x);
        assert(validation_findings(rs).contains(x) && is_ref_finding(x, a, f));
    }
    match value_str(item) {
        Some(s) => {
            assert forall|x: FindingView|
                #[trigger] validation_findings(rs).contains(x) && is_ref_finding(x, a, f)
                    && x.target == Some(s) implies (!is_valid_addr(s) || !addrs.contains(s)) && (
            x.code == "unresolved-ref"@ ==> (is_valid_addr(s) && !addrs.contains(s))) by {
                lemma_finding_owner(rs, i, x);
                lemma_ref_finding_field(r, addrs, f, x);
                lemma_list_member(r, addrs, f, x);
                let jj = choose|jj: int|
                    0 <= jj < items.len() && #[trigger] ref_findings(a, addrs, f, items[jj]).contains(
                        x,
                    );
                lemma_ref_findings_member(a, addrs, f, items[jj], x);
            }
        },
        None => {},
    }
}

/// `r` has a value in field `f` that does not resolve.
pub open spec fn broken_ref(r: Resource, addrs: Seq<Seq<char>>, f: Seq<char>) -> bool {
    match r.fields.get_spec(f) {
        Some(v) => !resolves(addrs, v),
        None => false,
    }
}

/// `r` has in field `f` a valid address that is none of `addrs`.
pub open spec fn dangling_ref(r: Resource, addrs: Seq<Seq<char>>, f: Seq<char>) -> bool {
    match r.fields.get_spec(f) {
        Some(v) => dangling(addrs, v),
        None => false,
    }
}

/// Some resource at address `a` has a value in field `f` that does not resolve.
pub open spec fn broken_ref_at(rs: Seq<Resource>, a: Seq<char>, f: Seq<char>) -> bool {
    exists|i: int|
        0 <= i < rs.len() && addr_of(rs[i]) == a && broken_ref(#[trigger] rs[i], addresses(rs), f)
}

/// Some resource at address `a` has in field `f` a valid address that no resource has.
pub open spec fn dangling_ref_at(rs: Seq<Resource>, a: Seq<char>, f: Seq<char>) -> bool {
    exists|i: int|
        0 <= i < rs.len() && addr_of(rs[i]) == a && dangling_ref(#[trigger] rs[i], addresses(rs), f)
}

/// L1 single references by address, for every set of resources: validation reports a
/// reference error (`invalid-ref` or `unresolved-ref`) for field `f` (`owner` or
/// `executed_by`) of address `a` if and only if a resource at `a` has a value there that
/// does not resolve, and an `unresolved-ref` exactly when such a value is a valid address that
/// no resource has.
pub proof fn law_single_refs_at(rs: Seq<Resource>, a: Seq<char>, f: Seq<char>)
    requires
        f == "owner"@ || f == "executed_by"@,
    ensures
        (exists|x: FindingView|
            #[trigger] validation_findings(rs).contains(x) && is_ref_finding(x, a, f))
            <==> broken_ref_at(rs, a, f),
        (exists|x: FindingView|
            #[trigger] validation_findings(rs).contains(x) && is_ref_finding(x, a, f) && x.code
                == "unresolved-ref"@) <==> dangling_ref_at(rs, a, f),
{
    lemma_validation_words_distinct();
    let addrs = addresses(rs);
    assert forall|x: FindingView|
        #[trigger] validation_findings(rs).contains(x) && is_ref_finding(x, a, f) implies broken_ref_at(
        rs,
        a,
        f,
    ) && (x.code == "unresolved-ref"@ ==> dangling_ref_at(rs, a, f)) by {
        let j = lemma_validation_member(rs, x);
        let r = rs[j];
        lemma_resource_findings_parts(r, addrs, x);
        lemma_ref_finding_field(r, addrs, f, x);
        let v = r.fields.get_spec(f)->0;
        lemma_ref_findings_member(addr_of(r), addrs, f, v, x);
        assert(addr_of(rs[j]) == a);
        assert(rs[j].fields.get_spec(f) == Some(v));
        assert(broken_ref(rs[j], addrs, f));
    }
    if broken_ref_at(rs, a, f) {
        let i = choose|i: int|
            0 <= i < rs.len() && addr_of(rs[i]) == a && broken_ref(#[trigger] rs[i], addresses(rs), f);
        let r = rs[i];
        let v = r.fields.get_spec(f)->0;
        lemma_ref_findings_present(a, addrs, f, v);
        let x = ref_findings(a, addrs, f, v)[0];
        assert(single_ref_findings(r, addrs, f).contains(x));
        lemma_validation_has(rs, i, x);
        lemma_ref_findings_member(a, addrs, f, v, x);
        assert(validation_findings(rs).contains(x) && is_ref_finding(x, a, f));
    }
    if dangling_ref_at(rs, a, f) {
        let i = choose|i: int|
            0 <= i < rs.len() && addr_of(rs[i]) == a && dangling_ref(#[trigger] rs[i], addresses(rs), f);
        let r = rs[i];
        let v = r.fields.get_spec(f)->0;
        lemma_ref_findings_present(a, addrs, f, v);
        let x = ref_findings(a, addrs, f, v)[0];
        assert(single_ref_findings(r, addrs, f).contains(x));
        lemma_validation_has(rs, i, x);
        lemma_ref_findings_member(a, addrs, f, v, x);
        assert(validation_findings(rs).contains(x) && is_ref_finding(x, a, f) && x.code
            == "unresolved-ref"@);
    }
}

/// The items of the list in field `f` of `r` (none when it is missing or not a list).
pub open spec fn list_items(r: Resource, f: Seq<char>) -> Seq<YamlValue> {
    match r.fields.get_spec(f) {
        Some(v) => match value_seq(v) {
            Some(items) => items,
            None => Seq::empty(),
        },
        None => Seq::empty(),
    }
}

/// Some resource at address `a` lists the string `s` in field `f`.
pub open spec fn lists_at(rs: Seq<Resource>, a: Seq<char>, f: Seq<char>, s: Seq<char>) -> bool {
    exists|i: int, j: int|
        0 <= i < rs.len() && addr_of(rs[i]) == a && 0 <= j < list_items(rs[i], f).len()
            && value_str(#[trigger] list_items(rs[i], f)[j]) == Some(s)
}

/// L1 lists of references by address, for every set of resources: validation reports a
/// reference error with target `s` for field `f` (`serves` or `policies`) of address `a` if
/// and only if a resource at `a` lists `s` there and `s` is not a `type/id` address or no
/// resource has it; it is an `unresolved-ref` exactly when `s` is a valid address that no
/// resource has.
pub proof fn law_list_refs_at(rs: Seq<Resource>, a: Seq<char>, f: Seq<char>, s: Seq<char>)
    requires
        f == "serves"@ || f == "policies"@,
    ensures
        (exists|x: FindingView|
            #[trigger] validation_findings(rs).contains(x) && is_ref_finding(x, a, f) && x.target
                == Some(s)) <==> (lists_at(rs, a, f, s) && (!is_valid_addr(s) || !addresses(
            rs,
        ).contains(s))),
        (exists|x: FindingView|
            #[trigger] validation_findings(rs).contains(x) && is_ref_finding(x, a, f) && x.target
                == Some(s) && x.code == "unresolved-ref"@) <==> (lists_at(rs, a, f, s)
            && is_valid_addr(s) && !addresses(rs).contains(s)),
{
    lemma_validation_words_distinct();
    let addrs = addresses(rs);
    assert forall|x: FindingView|
        #[trigger] validation_findings(rs).contains(x) && is_ref_finding(x, a, f) && x.target
            == Some(s) implies lists_at(rs, a, f, s) && (!is_valid_addr(s) || !addrs.contains(s))
        && (x.code == "unresolved-ref"@ ==> (is_valid_addr(s) && !addrs.contains(s))) by {
        let i = lemma_validation_member(rs, x);
        let r = rs[i];
        lemma_resource_findings_parts(r, addrs, x);
        lemma_ref_finding_field(r, addrs, f, x);
        lemma_list_member(r, addrs, f, x);
        let items = value_seq(r.fields.get_spec(f)->0)->0;
        let jj = choose|jj: int|
            0 <= jj < items.len() && #[trigger] ref_findings(addr_of(r), addrs, f, items[jj]).contains(
                x,
            );
        lemma_ref_findings_member(addr_of(r), addrs, f, items[jj], x);
        assert(list_items(rs[i], f)[jj] == items[jj]);
        assert(value_str(list_items(rs[i], f)[jj]) == Some(s));
    }
    if lists_at(rs, a, f, s) && (!is_valid_addr(s) || !addrs.contains(s)) {
        let (i, j) = choose|i: int, j: int|
            0 <= i < rs.len() && addr_of(rs[i]) == a && 0 <= j < list_items(rs[i], f).len()
                && value_str(#[trigger] list_items(rs[i], f)[j]) == Some(s);
        let r = rs[i];
        let items = list_items(r, f);
        let item = items[j];
        let parts = items.map_values(|it: YamlValue| ref_findings(addr_of(r), addrs, f, it));
        lemma_ref_findings_present(a, addrs, f, item);
        let x = ref_findings(a, addrs, f, item)[0];
        assert(parts[j] == ref_findings(a, addrs, f, item));
        lemma_flatten_contains(parts, j, 0);
        assert(list_ref_findings(r, addrs, f).contains(x));
        lemma_validation_has(rs, i, x);
        lemma_ref_findings_member(a, addrs, f, item, x);
        assert(validation_findings(rs).contains(x) && is_ref_finding(x, a, f) && x.target == Some(s));
    }
}

} // verus!
