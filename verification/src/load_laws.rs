//! Properties of level L0, the load of a description: which findings the manifest and each
//! document give rise to, and which documents become resources.
use vstd::prelude::*;
use crate::laws::{
    doc_resource, keeps_findings, law_resources_are_opted_in_documents,
    lemma_load_document_shape, opts_in, view_addr,
};
use crate::load::{
    add_resource, check_api_version, first_file_at, is_core_type, load_document, load_documents, manifest_findings, Document,
    LoadState, ManifestSource,
};
use crate::model::{mk_finding, FindingView, ResourceView, API_PREFIX};
use crate::text::{first_occurrence, has_prefix, has_suffix};

verus! {

/// The codes of level L0 are distinct strings.
pub proof fn lemma_load_codes_distinct()
    ensures
        "invalid-frontmatter"@ != "missing-type"@,
        "invalid-frontmatter"@ != "missing-id"@,
        "invalid-frontmatter"@ != "unknown-api-version"@,
        "invalid-frontmatter"@ != "invalid-id"@,
        "invalid-frontmatter"@ != "unknown-type"@,
        "invalid-frontmatter"@ != "duplicate-id"@,
        "missing-type"@ != "missing-id"@,
        "missing-type"@ != "unknown-api-version"@,
        "missing-type"@ != "invalid-id"@,
        "missing-type"@ != "unknown-type"@,
        "missing-type"@ != "duplicate-id"@,
        "missing-id"@ != "unknown-api-version"@,
        "missing-id"@ != "invalid-id"@,
        "missing-id"@ != "unknown-type"@,
        "missing-id"@ != "duplicate-id"@,
        "unknown-api-version"@ != "invalid-id"@,
        "unknown-api-version"@ != "unknown-type"@,
        "unknown-api-version"@ != "duplicate-id"@,
        "invalid-id"@ != "unknown-type"@,
        "invalid-id"@ != "duplicate-id"@,
        "unknown-type"@ != "duplicate-id"@,
{
    reveal_strlit("invalid-frontmatter");
    reveal_strlit("missing-type");
    reveal_strlit("missing-id");
    reveal_strlit("unknown-api-version");
    reveal_strlit("invalid-id");
    reveal_strlit("unknown-type");
    reveal_strlit("duplicate-id");
    assert("invalid-frontmatter"@.len() != "missing-type"@.len());
    assert("invalid-frontmatter"@.len() != "missing-id"@.len());
    assert("invalid-frontmatter"@[0] != "unknown-api-version"@[0]);
    assert("invalid-frontmatter"@.len() != "invalid-id"@.len());
    assert("invalid-frontmatter"@.len() != "unknown-type"@.len());
    assert("invalid-frontmatter"@.len() != "duplicate-id"@.len());
    assert("missing-type"@[8] != "missing-id"@[8]);
    assert("missing-type"@.len() != "unknown-api-version"@.len());
    assert("missing-type"@.len() != "invalid-id"@.len());
    assert("missing-type"@[0] != "unknown-type"@[0]);
    assert("missing-type"@[0] != "duplicate-id"@[0]);
    assert("missing-id"@.len() != "unknown-api-version"@.len());
    assert("missing-id"@[0] != "invalid-id"@[0]);
    assert("missing-id"@.len() != "unknown-type"@.len());
    assert("missing-id"@.len() != "duplicate-id"@.len());
    assert("unknown-api-version"@.len() != "invalid-id"@.len());
    assert("unknown-api-version"@.len() != "unknown-type"@.len());
    assert("unknown-api-version"@.len() != "duplicate-id"@.len());
    assert("invalid-id"@.len() != "unknown-type"@.len());
    assert("invalid-id"@.len() != "duplicate-id"@.len());
    assert("unknown-type"@[0] != "duplicate-id"@[0]);
}

/// A finding that loading document `d` can add: it names a file or an address, and each
/// code names the right thing.
pub open spec fn doc_finding(d: Document, x: FindingView) -> bool {
    &&& x.resource is Some
    &&& x.level == "L0"@
    &&& x.code == "invalid-frontmatter"@ ==> (d.parsed is Err && first_occurrence(
        d.front@,
        API_PREFIX@,
    ) is Some && x.resource == Some(d.file@) && x.severity == "error"@)
    &&& (x.code == "missing-type"@ || x.code == "missing-id"@ || x.code == "unknown-api-version"@)
        ==> x.resource == Some(d.file@)
    &&& (x.code == "invalid-id"@ || x.code == "unknown-type"@ || x.code == "duplicate-id"@) ==> (
    opts_in(d) && x.resource == Some(view_addr(doc_resource(d))))
    &&& (x.code == "invalid-frontmatter"@ || x.code == "missing-type"@ || x.code == "missing-id"@
        || x.code == "unknown-api-version"@ || x.code == "invalid-id"@ || x.code
        == "unknown-type"@ || x.code == "duplicate-id"@)
}

/// The findings `st2` has beyond `st` are all findings document `d` can add.
pub open spec fn adds_doc_findings(st: LoadState, st2: LoadState, d: Document) -> bool {
    &&& keeps_findings(st, st2)
    &&& forall|k: int|
        st.findings.len() <= k < st2.findings.len() ==> doc_finding(d, #[trigger] st2.findings[k])
}

proof fn lemma_add_resource_findings(
    st: LoadState,
    d: Document,
    m: crate::yaml::YamlMapping,
    ty: Seq<char>,
    id: Seq<char>,
)
    requires
        opts_in(d),
        d.parsed == Ok::<crate::yaml::YamlMapping, String>(m),
        m.str_field("type"@) == Some(ty),
        m.str_field("id"@) == Some(id),
    ensures
        adds_doc_findings(st, add_resource(st, d, m, ty, id), d),
{
    lemma_load_codes_distinct();
    let r = add_resource(st, d, m, ty, id);
    assert(view_addr(doc_resource(d)) == crate::model::address(ty, id));
}

/// The findings loading one document adds.
pub proof fn lemma_document_findings(st: LoadState, d: Document)
    ensures
        adds_doc_findings(st, load_document(st, d), d),
{
    lemma_load_codes_distinct();
    match d.parsed {
        Err(e) => {},
        Ok(m) => match m.str_field("api"@) {
            None => {},
            Some(api) => if has_prefix(api, API_PREFIX@) {
                let st1 = check_api_version(st, d.file@, api);
                assert(adds_doc_findings(st, st1, d));
                match m.str_field("type"@) {
                    None => {},
                    Some(ty) => match m.str_field("id"@) {
                        None => {},
                        Some(id) => {
                            lemma_add_resource_findings(st1, d, m, ty, id);
                            let r = add_resource(st1, d, m, ty, id);
                            assert(load_document(st, d) == r);
                            assert forall|k: int|
                                st.findings.len() <= k < r.findings.len() implies doc_finding(
                                d,
                                #[trigger] r.findings[k],
                            ) by {
                                if k < st1.findings.len() {
                                    assert(r.findings[k] == st1.findings[k]);
                                }
                            }
                        },
                    },
                }
            },
        },
    }
}

/// Every finding a load adds beyond `st` is one that one of the documents can add.
pub proof fn lemma_documents_findings(st: LoadState, ds: Seq<Document>)
    ensures
        keeps_findings(st, load_documents(st, ds)),
        forall|k: int|
            st.findings.len() <= k < load_documents(st, ds).findings.len() ==> exists|j: int|
                0 <= j < ds.len() && doc_finding(
                    ds[j],
                    #[trigger] load_documents(st, ds).findings[k],
                ),
    decreases ds.len(),
{
    law_resources_are_opted_in_documents(st, ds);
    if ds.len() > 0 {
        let prev = ds.drop_last();
        lemma_documents_findings(st, prev);
        let mid = load_documents(st, prev);
        let fin = load_documents(st, ds);
        lemma_document_findings(mid, ds.last());
        assert forall|k: int| st.findings.len() <= k < fin.findings.len() implies exists|j: int|
            0 <= j < ds.len() && doc_finding(ds[j], #[trigger] fin.findings[k]) by {
            if k < mid.findings.len() {
                assert(fin.findings[k] == mid.findings[k]);
                let j = choose|j: int| 0 <= j < prev.len() && doc_finding(prev[j], mid.findings[k]);
                assert(prev[j] == ds[j]);
            } else {
                assert(doc_finding(ds[ds.len() - 1], fin.findings[k]));
            }
        }
    }
}

/// Every resource of a load was there before or is an opted-in document.
pub proof fn lemma_documents_resources(st: LoadState, ds: Seq<Document>)
    ensures
        st.resources.len() <= load_documents(st, ds).resources.len(),
        forall|i: int|
            0 <= i < load_documents(st, ds).resources.len() ==> (i < st.resources.len()
                && #[trigger] load_documents(st, ds).resources[i] == st.resources[i]) || exists|
                j: int,
            |
                0 <= j < ds.len() && opts_in(ds[j]) && load_documents(st, ds).resources[i]
                    == doc_resource(ds[j]),
    decreases ds.len(),
{
    if ds.len() > 0 {
        let prev = ds.drop_last();
        lemma_documents_resources(st, prev);
        let mid = load_documents(st, prev);
        let fin = load_documents(st, ds);
        lemma_load_document_shape(mid, ds.last());
        assert forall|i: int| 0 <= i < fin.resources.len() implies (i < st.resources.len()
            && #[trigger] fin.resources[i] == st.resources[i]) || exists|j: int|
            0 <= j < ds.len() && opts_in(ds[j]) && fin.resources[i] == doc_resource(ds[j]) by {
            if i < mid.resources.len() {
                assert(fin.resources[i] == mid.resources[i]);
                if !(i < st.resources.len() && mid.resources[i] == st.resources[i]) {
                    let j = choose|j: int|
                        0 <= j < prev.len() && opts_in(prev[j]) && mid.resources[i]
                            == doc_resource(prev[j]);
                    assert(prev[j] == ds[j]);
                }
            } else {
                assert(fin.resources[i] == doc_resource(ds[ds.len() - 1]));
            }
        }
    }
}

/// Loading `a` then `b` is loading `a + b`.
pub proof fn lemma_load_append(st: LoadState, a: Seq<Document>, b: Seq<Document>)
    ensures
        load_documents(st, a + b) == load_documents(load_documents(st, a), b),
    decreases b.len(),
{
    if b.len() == 0 {
        assert(a + b =~= a);
    } else {
        lemma_load_append(st, a, b.drop_last());
        assert((a + b).drop_last() =~= a + b.drop_last());
        assert((a + b).last() == b.last());
    }
}

/// The state right after document `j` of a load.
pub open spec fn state_after(st: LoadState, ds: Seq<Document>, j: int) -> LoadState {
    load_document(load_documents(st, ds.take(j)), ds[j])
}

/// What a load holds right after document `j` stays in the findings at the end.
pub proof fn lemma_step_kept(st: LoadState, ds: Seq<Document>, j: int)
    requires
        0 <= j < ds.len(),
    ensures
        keeps_findings(state_after(st, ds, j), load_documents(st, ds)),
{
    lemma_load_append(st, ds.take(j + 1), ds.skip(j + 1));
    assert(ds.take(j + 1) + ds.skip(j + 1) =~= ds);
    assert(ds.take(j + 1).drop_last() =~= ds.take(j));
    assert(ds.take(j + 1).last() == ds[j]);
    law_resources_are_opted_in_documents(load_documents(st, ds.take(j + 1)), ds.skip(j + 1));
}

/// The state a load from manifest `m` starts in.
pub open spec fn initial_state(m: ManifestSource) -> LoadState {
    LoadState { findings: manifest_findings(m), resources: Seq::empty() }
}

/// The manifest's findings come first and are the only findings that name no file or
/// address: a load from manifest `m` starts with exactly `manifest_findings(m)` (each an L0
/// error about the manifest: `missing-manifest`, `invalid-manifest` or `manifest-api`), and
/// every later finding names a file or an address.
pub proof fn law_manifest_findings_first(m: ManifestSource, ds: Seq<Document>)
    ensures
        load_documents(initial_state(m), ds).findings.take(manifest_findings(m).len() as int)
            == manifest_findings(m),
        forall|k: int|
            manifest_findings(m).len() <= k < load_documents(initial_state(m), ds).findings.len()
                ==> (#[trigger] load_documents(initial_state(m), ds).findings[k]).resource is Some,
        forall|k: int|
            0 <= k < manifest_findings(m).len() ==> {
                let x = #[trigger] load_documents(initial_state(m), ds).findings[k];
                &&& x.resource is None
                &&& x.level == "L0"@
                &&& x.severity == "error"@
                &&& (x.code == "missing-manifest"@ || x.code == "invalid-manifest"@ || x.code
                    == "manifest-api"@)
            },
{
    let st = initial_state(m);
    let fin = load_documents(st, ds);
    lemma_documents_findings(st, ds);
    assert(fin.findings.take(manifest_findings(m).len() as int) =~= manifest_findings(m));
    assert forall|k: int|
        manifest_findings(m).len() <= k < fin.findings.len() implies (
    #[trigger] fin.findings[k]).resource is Some by {
        let j = choose|j: int| 0 <= j < ds.len() && doc_finding(ds[j], fin.findings[k]);
    }
    assert forall|k: int| 0 <= k < manifest_findings(m).len() implies {
        let x = #[trigger] fin.findings[k];
        &&& x.resource is None
        &&& x.level == "L0"@
        &&& x.severity == "error"@
        &&& (x.code == "missing-manifest"@ || x.code == "invalid-manifest"@ || x.code
            == "manifest-api"@)
    } by {
        assert(fin.findings[k] == manifest_findings(m)[k]);
    }
}

/// No two documents come from one file.
pub open spec fn distinct_files(ds: Seq<Document>) -> bool {
    forall|a: int, b: int| 0 <= a < b < ds.len() ==> (#[trigger] ds[a]).file@ != (#[trigger] ds[b]).file@
}

/// No resource of `rs` comes from `file`.
pub open spec fn no_resource_from(rs: Seq<ResourceView>, file: Seq<char>) -> bool {
    forall|i: int| 0 <= i < rs.len() ==> (#[trigger] rs[i]).file != file
}

/// A document that does not opt in never becomes a resource of the load.
pub proof fn lemma_not_opted_in_no_resource(st: LoadState, ds: Seq<Document>, j: int)
    requires
        0 <= j < ds.len(),
        distinct_files(ds),
        !opts_in(ds[j]),
        no_resource_from(st.resources, ds[j].file@),
    ensures
        no_resource_from(load_documents(st, ds).resources, ds[j].file@),
{
    lemma_documents_resources(st, ds);
    let fin = load_documents(st, ds);
    assert forall|i: int| 0 <= i < fin.resources.len() implies (
    #[trigger] fin.resources[i]).file != ds[j].file@ by {
        if !(i < st.resources.len() && fin.resources[i] == st.resources[i]) {
            let jj = choose|jj: int|
                0 <= jj < ds.len() && opts_in(ds[jj]) && fin.resources[i] == doc_resource(ds[jj]);
            assert(jj != j);
            if jj < j {
                assert(ds[jj].file@ != ds[j].file@);
            } else {
                assert(ds[j].file@ != ds[jj].file@);
            }
        }
    }
}

/// The `missing-type` error on `file`.
pub open spec fn missing_type(file: Seq<char>) -> FindingView {
    mk_finding(
        "L0"@,
        "error"@,
        "missing-type"@,
        Some(file),
        Some("type"@),
        None,
        "resource envelope has no 'type'"@,
    )
}

/// The `missing-id` error on `file`.
pub open spec fn missing_id(file: Seq<char>) -> FindingView {
    mk_finding(
        "L0"@,
        "error"@,
        "missing-id"@,
        Some(file),
        Some("id"@),
        None,
        "resource envelope has no 'id'"@,
    )
}

/// A document whose frontmatter opts in (an `api` that starts with `API_PREFIX`) but has no
/// `type` is reported with `missing-type`, or with a `type` but no `id` with `missing-id` (an
/// L0 error on its file, field `type` or `id`), whatever else the load holds; and when no
/// other document comes from the same file, no resource comes from it.
pub proof fn law_incomplete_envelope_reported(m: ManifestSource, ds: Seq<Document>, j: int)
    requires
        0 <= j < ds.len(),
        ds[j].parsed matches Ok(fm) && fm.str_field("api"@) matches Some(api) && has_prefix(
            api,
            API_PREFIX@,
        ) && (fm.str_field("type"@) is None || fm.str_field("id"@) is None),
    ensures
        ds[j].parsed->Ok_0.str_field("type"@) is None ==> load_documents(initial_state(m), ds).findings.contains(
            missing_type(ds[j].file@),
        ),
        ds[j].parsed->Ok_0.str_field("type"@) is Some ==> load_documents(initial_state(m), ds).findings.contains(
            missing_id(ds[j].file@),
        ),
        distinct_files(ds) ==> no_resource_from(load_documents(initial_state(m), ds).resources, ds[j].file@),
{
    let st = initial_state(m);
    let d = ds[j];
    let fm = d.parsed->Ok_0;
    let api = fm.str_field("api"@)->0;
    let before = load_documents(st, ds.take(j));
    let s1 = state_after(st, ds, j);
    let st1 = check_api_version(before, d.file@, api);
    let fin = load_documents(st, ds);
    lemma_step_kept(st, ds, j);
    let k = s1.findings.len() - 1;
    if fm.str_field("type"@) is None {
        assert(s1.findings == st1.findings.push(missing_type(d.file@)));
        assert(fin.findings[k] == missing_type(d.file@));
    } else {
        assert(s1.findings == st1.findings.push(missing_id(d.file@)));
        assert(fin.findings[k] == missing_id(d.file@));
    }
    if distinct_files(ds) {
        lemma_not_opted_in_no_resource(st, ds, j);
    }
}

/// An unparsable frontmatter that mentions `API_PREFIX` is reported (`invalid-frontmatter`,
/// an L0 error on its file), whatever else the load holds; when no other document comes from
/// the same file, it is reported if and only if it mentions `API_PREFIX`, and no resource
/// comes from the file.
pub proof fn law_invalid_frontmatter_reported(m: ManifestSource, ds: Seq<Document>, j: int)
    requires
        0 <= j < ds.len(),
        ds[j].parsed is Err,
    ensures
        first_occurrence(ds[j].front@, API_PREFIX@) is Some ==> load_documents(
            initial_state(m),
            ds,
        ).findings.contains(
            mk_finding(
                "L0"@,
                "error"@,
                "invalid-frontmatter"@,
                Some(ds[j].file@),
                None,
                None,
                "frontmatter does not parse as YAML: "@ + ds[j].parsed->Err_0@,
            ),
        ),
        distinct_files(ds) ==> ((exists|k: int|
            0 <= k < load_documents(initial_state(m), ds).findings.len() && (#[trigger] load_documents(
                initial_state(m),
                ds,
            ).findings[k]).code == "invalid-frontmatter"@ && load_documents(initial_state(m), ds).findings[k].resource
                == Some(ds[j].file@)) <==> first_occurrence(ds[j].front@, API_PREFIX@) is Some),
        distinct_files(ds) ==> no_resource_from(load_documents(initial_state(m), ds).resources, ds[j].file@),
{
    let st = initial_state(m);
    let d = ds[j];
    let fin = load_documents(st, ds);
    let s1 = state_after(st, ds, j);
    lemma_step_kept(st, ds, j);
    lemma_documents_findings(st, ds);
    if first_occurrence(d.front@, API_PREFIX@) is Some {
        let k = s1.findings.len() - 1;
        assert(fin.findings[k] == s1.findings[k]);
        assert(fin.findings[k].code == "invalid-frontmatter"@);
    }
    if distinct_files(ds) {
        lemma_not_opted_in_no_resource(st, ds, j);
        assert forall|k: int|
            0 <= k < fin.findings.len() && (#[trigger] fin.findings[k]).code == "invalid-frontmatter"@
                && fin.findings[k].resource == Some(d.file@) implies first_occurrence(
            d.front@,
            API_PREFIX@,
        ) is Some by {
            if k >= st.findings.len() {
                let jj = choose|jj: int| 0 <= jj < ds.len() && doc_finding(ds[jj], fin.findings[k]);
                if jj < j {
                    assert(ds[jj].file@ != ds[j].file@);
                } else if j < jj {
                    assert(ds[j].file@ != ds[jj].file@);
                }
            } else {
                assert(fin.findings[k] == st.findings[k]);
            }
        }
    }
}

/// The findings that name `a`.
pub open spec fn naming(fs: Seq<FindingView>, a: Seq<char>) -> Seq<FindingView> {
    fs.filter(|x: FindingView| x.resource == Some(a))
}

/// No resource of `rs` has address `a`.
pub open spec fn no_resource_at(rs: Seq<ResourceView>, a: Seq<char>) -> bool {
    forall|i: int| 0 <= i < rs.len() ==> view_addr(#[trigger] rs[i]) != a
}

/// Without a resource at `a` there is no first file at `a`.
pub proof fn lemma_first_file_none(rs: Seq<ResourceView>, a: Seq<char>)
    requires
        no_resource_at(rs, a),
    ensures
        first_file_at(rs, a) is None,
    decreases rs.len(),
{
    if rs.len() > 0 {
        assert(view_addr(rs[0]) != a);
        assert forall|i: int| 0 <= i < rs.drop_first().len() implies view_addr(
            #[trigger] rs.drop_first()[i],
        ) != a by {
            assert(rs.drop_first()[i] == rs[i + 1]);
        }
        lemma_first_file_none(rs.drop_first(), a);
    }
}

/// Findings appended by a step that name nothing at `a` leave the findings naming `a` alone.
pub proof fn lemma_naming_unchanged(
    st: LoadState,
    st2: LoadState,
    a: Seq<char>,
)
    requires
        keeps_findings(st, st2),
        forall|k: int|
            st.findings.len() <= k < st2.findings.len() ==> (#[trigger] st2.findings[k]).resource
                != Some(a),
    ensures
        naming(st2.findings, a) == naming(st.findings, a),
{
    let p = |x: FindingView| x.resource == Some(a);
    let added = st2.findings.skip(st.findings.len() as int);
    assert(st2.findings =~= st.findings + added);
    Seq::filter_distributes_over_add(st.findings, added, p);
    assert forall|i: int| 0 <= i < added.len() implies !p(#[trigger] added[i]) by {
        assert(added[i] == st2.findings[st.findings.len() + i]);
    }
    crate::laws::lemma_filter_none(added, p);
    assert(added.filter(p) =~= Seq::<FindingView>::empty());
    assert(naming(st2.findings, a) =~= naming(st.findings, a));
}

/// The `unknown-type` warning for the resource at `a` of type `ty`.
pub open spec fn unknown_type(a: Seq<char>, ty: Seq<char>) -> FindingView {
    mk_finding(
        "L0"@,
        "warning"@,
        "unknown-type"@,
        Some(a),
        Some("type"@),
        None,
        "type '"@ + ty + "' is neither a core type nor x- namespaced (preserved, not validated)"@,
    )
}

/// The type of the resource an opted-in document becomes.
pub open spec fn doc_type(d: Document) -> Seq<char> {
    doc_resource(d).resource_type
}

/// What the findings naming the address of `ds[j]` are once `ds[j]` has been loaded.
pub open spec fn expected_naming(d: Document) -> Seq<FindingView> {
    if !is_core_type(doc_type(d)) && !has_prefix(doc_type(d), "x-"@) {
        seq![unknown_type(view_addr(doc_resource(d)), doc_type(d))]
    } else {
        Seq::empty()
    }
}

/// `ds[j]` is the only document that could name address `a`.
pub open spec fn sole_at(ds: Seq<Document>, j: int, a: Seq<char>) -> bool {
    forall|jj: int|
        0 <= jj < ds.len() && jj != j ==> (#[trigger] ds[jj]).file@ != a && (!opts_in(ds[jj])
            || view_addr(doc_resource(ds[jj])) != a)
}

/// A step of a document other than `ds[j]`.
proof fn lemma_other_document(s: LoadState, d: Document, a: Seq<char>)
    requires
        d.file@ != a,
        !opts_in(d) || view_addr(doc_resource(d)) != a,
    ensures
        naming(load_document(s, d).findings, a) == naming(s.findings, a),
        no_resource_at(s.resources, a) ==> no_resource_at(load_document(s, d).resources, a),
        forall|r: ResourceView| s.resources.contains(r) ==> load_document(s, d).resources.contains(r),
{
    let s2 = load_document(s, d);
    lemma_document_findings(s, d);
    lemma_load_document_shape(s, d);
    assert forall|k: int|
        s.findings.len() <= k < s2.findings.len() implies (#[trigger] s2.findings[k]).resource != Some(a) by {
        assert(doc_finding(d, s2.findings[k]));
    }
    lemma_naming_unchanged(s, s2, a);
    assert forall|r: ResourceView| s.resources.contains(r) implies s2.resources.contains(r) by {
        let i = choose|i: int| 0 <= i < s.resources.len() && s.resources[i] == r;
        assert(s2.resources[i] == r);
    }
}

/// The step of `ds[j]` itself.
proof fn lemma_own_document(s: LoadState, d: Document)
    requires
        opts_in(d),
        crate::ids::is_valid_id(doc_resource(d).id),
        d.file@ != view_addr(doc_resource(d)),
        no_resource_at(s.resources, view_addr(doc_resource(d))),
        naming(s.findings, view_addr(doc_resource(d))) == Seq::<FindingView>::empty(),
    ensures
        naming(load_document(s, d).findings, view_addr(doc_resource(d))) == expected_naming(d),
        load_document(s, d).resources.contains(doc_resource(d)),
{
    let m = d.parsed->Ok_0;
    let api = m.str_field("api"@)->0;
    let ty = m.str_field("type"@)->0;
    let id = m.str_field("id"@)->0;
    let a = view_addr(doc_resource(d));
    assert(a == crate::model::address(ty, id));
    let p = |x: FindingView| x.resource == Some(a);
    let st1 = check_api_version(s, d.file@, api);
    if api != crate::model::API_V0@ {
        let w = st1.findings.last();
        s.findings.lemma_filter_push(w, p);
        assert(st1.findings == s.findings.push(w));
    }
    assert(naming(st1.findings, a) == naming(s.findings, a));
    let r = add_resource(st1, d, m, ty, id);
    assert(load_document(s, d) == r);
    lemma_first_file_none(st1.resources, a);
    if !is_core_type(ty) && !has_prefix(ty, "x-"@) {
        st1.findings.lemma_filter_push(unknown_type(a, ty), p);
        assert(r.findings == st1.findings.push(unknown_type(a, ty)));
        assert(naming(r.findings, a) =~= seq![unknown_type(a, ty)]);
    } else {
        assert(r.findings == st1.findings);
    }
    lemma_load_document_shape(s, d);
    assert(r.resources[r.resources.len() - 1] == doc_resource(d));
}

proof fn lemma_unknown_type_induction(st: LoadState, ds: Seq<Document>, j: int, a: Seq<char>)
    requires
        0 <= j,
        sole_at(ds, j, a),
        j < ds.len() ==> (opts_in(ds[j]) && view_addr(doc_resource(ds[j])) == a
            && crate::ids::is_valid_id(doc_resource(ds[j]).id) && ds[j].file@ != a),
        no_resource_at(st.resources, a),
        naming(st.findings, a) == Seq::<FindingView>::empty(),
    ensures
        j >= ds.len() ==> naming(load_documents(st, ds).findings, a) == Seq::<FindingView>::empty()
            && no_resource_at(load_documents(st, ds).resources, a),
        j < ds.len() ==> naming(load_documents(st, ds).findings, a) == expected_naming(ds[j])
            && load_documents(st, ds).resources.contains(doc_resource(ds[j])),
    decreases ds.len(),
{
    if ds.len() > 0 {
        let prev = ds.drop_last();
        let l = ds.len() - 1;
        assert forall|jj: int| 0 <= jj < prev.len() && jj != j implies (#[trigger] prev[jj]).file@ != a
            && (!opts_in(prev[jj]) || view_addr(doc_resource(prev[jj])) != a) by {
            assert(prev[jj] == ds[jj]);
        }
        if j < l {
            assert(prev[j] == ds[j]);
        }
        lemma_unknown_type_induction(st, prev, j, a);
        let mid = load_documents(st, prev);
        if j == l {
            lemma_own_document(mid, ds[l]);
        } else {
            lemma_other_document(mid, ds[l], a);
        }
    }
}

/// Every file's name ends with `.md`, as the discovery walk hands them in.
pub open spec fn markdown_files(ds: Seq<Document>) -> bool {
    forall|jj: int| 0 <= jj < ds.len() ==> has_suffix((#[trigger] ds[jj]).file@, ".md"@)
}

/// No document but `ds[j]` defines address `a`.
pub open spec fn only_definer(ds: Seq<Document>, j: int, a: Seq<char>) -> bool {
    forall|jj: int|
        0 <= jj < ds.len() && jj != j ==> !opts_in(#[trigger] ds[jj]) || view_addr(doc_resource(ds[jj])) != a
}

/// A markdown file name is never an address with a valid id.
proof fn lemma_markdown_is_no_address(file: Seq<char>, t: Seq<char>, id: Seq<char>)
    requires
        has_suffix(file, ".md"@),
        crate::ids::is_valid_id(id),
    ensures
        file != crate::model::address(t, id),
{
    reveal_strlit(".md");
    let a = crate::model::address(t, id);
    if file == a {
        let n = a.len() as int;
        assert(file.skip(n - 3)[0] == file[n - 3]);
        assert(file.skip(n - 3)[1] == file[n - 2]);
        assert(a[n - 3] == '.' && a[n - 2] == 'm');
        if id.len() >= 3 {
            assert(a[n - 3] == id[id.len() - 3]);
            assert(crate::ids::is_id_char(id[id.len() - 3]));
        } else if id.len() == 2 {
            assert(a[n - 3] == '/');
        } else {
            assert(a[n - 2] == '/');
        }
    }
}

/// A fresh load names nothing and holds no resource.
proof fn lemma_initial_state_empty(m: ManifestSource, a: Seq<char>)
    ensures
        naming(initial_state(m).findings, a) == Seq::<FindingView>::empty(),
        no_resource_at(initial_state(m).resources, a),
{
    let st = initial_state(m);
    let p = |x: FindingView| x.resource == Some(a);
    assert forall|i: int| 0 <= i < st.findings.len() implies !p(#[trigger] st.findings[i]) by {}
    crate::laws::lemma_filter_none(st.findings, p);
    assert(naming(st.findings, a) =~= Seq::<FindingView>::empty());
}

/// A resource of a type that is neither a core type nor `x-` namespaced is kept, with its
/// fields, and gets an `unknown-type` warning, whatever else the load holds. When it has a
/// valid id, no other document defines its address `a`, and files are markdown files, that
/// warning is all that names `a`: never an error; for an `x-` type (or a core type) nothing
/// names `a`.
pub proof fn law_unknown_type_kept(m: ManifestSource, ds: Seq<Document>, j: int)
    requires
        0 <= j < ds.len(),
        opts_in(ds[j]),
    ensures
        load_documents(initial_state(m), ds).resources.contains(doc_resource(ds[j])),
        !is_core_type(doc_type(ds[j])) && !has_prefix(doc_type(ds[j]), "x-"@) ==> load_documents(
            initial_state(m),
            ds,
        ).findings.contains(unknown_type(view_addr(doc_resource(ds[j])), doc_type(ds[j]))),
        crate::ids::is_valid_id(doc_resource(ds[j]).id) && only_definer(
            ds,
            j,
            view_addr(doc_resource(ds[j])),
        ) && markdown_files(ds) ==> naming(
            load_documents(initial_state(m), ds).findings,
            view_addr(doc_resource(ds[j])),
        ) == expected_naming(ds[j]),
{
    let st = initial_state(m);
    let d = ds[j];
    let a = view_addr(doc_resource(d));
    let fin = load_documents(st, ds);
    law_resources_are_opted_in_documents(st, ds);
    lemma_documents_resources(st, ds);
    lemma_load_append(st, ds.take(j + 1), ds.skip(j + 1));
    assert(ds.take(j + 1) + ds.skip(j + 1) =~= ds);
    assert(ds.take(j + 1).drop_last() =~= ds.take(j));
    assert(ds.take(j + 1).last() == d);
    let before = load_documents(st, ds.take(j));
    let s1 = state_after(st, ds, j);
    lemma_load_document_shape(before, d);
    law_resources_are_opted_in_documents(s1, ds.skip(j + 1));
    lemma_documents_resources(s1, ds.skip(j + 1));
    assert(s1.resources[s1.resources.len() - 1] == doc_resource(d));
    assert(fin.resources[s1.resources.len() - 1] == doc_resource(d));
    let fm = d.parsed->Ok_0;
    let api = fm.str_field("api"@)->0;
    let ty = fm.str_field("type"@)->0;
    let id = fm.str_field("id"@)->0;
    if !is_core_type(ty) && !has_prefix(ty, "x-"@) {
        let st1 = check_api_version(before, d.file@, api);
        let r = add_resource(st1, d, fm, ty, id);
        assert(s1 == r);
        assert(a == crate::model::address(ty, id));
        let k0 = st1.findings.len() + (if !crate::ids::is_valid_id(id) {
            1int
        } else {
            0int
        });
        assert(r.findings[k0] == unknown_type(a, ty));
        lemma_step_kept(st, ds, j);
        assert(fin.findings[k0] == unknown_type(a, ty));
    }
    if crate::ids::is_valid_id(doc_resource(d).id) && only_definer(ds, j, a) && markdown_files(ds) {
        assert forall|jj: int| 0 <= jj < ds.len() implies (#[trigger] ds[jj]).file@ != a by {
            lemma_markdown_is_no_address(ds[jj].file@, doc_resource(d).resource_type, doc_resource(d).id);
        }
        lemma_initial_state_empty(m, a);
        lemma_unknown_type_induction(st, ds, j, a);
    }
}

/// The files of the resources at address `a`, in order.
pub open spec fn files_at(rs: Seq<ResourceView>, a: Seq<char>) -> Seq<Seq<char>> {
    rs.filter(|r: ResourceView| view_addr(r) == a).map_values(|r: ResourceView| r.file)
}

/// The `duplicate-id` findings that name `a`.
pub open spec fn duplicates_of(fs: Seq<FindingView>, a: Seq<char>) -> Seq<FindingView> {
    fs.filter(|x: FindingView| x.code == "duplicate-id"@ && x.resource == Some(a))
}

/// The `duplicate-id` error for address `a`, first defined in `first`, again in `other`.
pub open spec fn duplicate_finding(a: Seq<char>, first: Seq<char>, other: Seq<char>) -> FindingView {
    mk_finding(
        "L0"@,
        "error"@,
        "duplicate-id"@,
        Some(a),
        None,
        None,
        "'"@ + a + "' defined in both "@ + first + " and "@ + other,
    )
}

/// One `duplicate-id` error for each file after the first, naming the first and that file.
pub open spec fn expected_duplicates(a: Seq<char>, files: Seq<Seq<char>>) -> Seq<FindingView> {
    Seq::new(
        if files.len() > 0 {
            (files.len() - 1) as nat
        } else {
            0
        },
        |k: int| duplicate_finding(a, files[0], files[k + 1]),
    )
}

/// The files of the documents that define address `a`, in order.
pub open spec fn documents_at(ds: Seq<Document>, a: Seq<char>) -> Seq<Seq<char>> {
    ds.filter(|d: Document| opts_in(d) && view_addr(doc_resource(d)) == a).map_values(
        |d: Document| d.file@,
    )
}

/// The first file at `a` is the first of the files at `a`.
proof fn lemma_first_file_is_first(rs: Seq<ResourceView>, a: Seq<char>)
    ensures
        first_file_at(rs, a) == if files_at(rs, a).len() > 0 {
            Some(files_at(rs, a)[0])
        } else {
            None
        },
    decreases rs.len(),
{
    let p = |r: ResourceView| view_addr(r) == a;
    if rs.len() == 0 {
        assert(rs.filter(p) =~= Seq::<ResourceView>::empty()) by {
            reveal(Seq::filter);
        }
    } else {
        let rest = rs.drop_first();
        lemma_first_file_is_first(rest, a);
        assert(rs =~= seq![rs[0]] + rest);
        rest.lemma_filter_prepend(rs[0], p);
        if p(rs[0]) {
            assert(rs.filter(p) == seq![rs[0]] + rest.filter(p));
            assert(files_at(rs, a)[0] == rs[0].file);
        } else {
            assert(rs.filter(p) == Seq::<ResourceView>::empty() + rest.filter(p));
            assert(rs.filter(p) =~= rest.filter(p));
        }
    }
}

/// Findings appended that fail `p` leave the findings that satisfy `p` alone.
proof fn lemma_filter_kept(st: LoadState, st2: LoadState, p: spec_fn(FindingView) -> bool)
    requires
        keeps_findings(st, st2),
        forall|k: int| st.findings.len() <= k < st2.findings.len() ==> !p(#[trigger] st2.findings[k]),
    ensures
        st2.findings.filter(p) == st.findings.filter(p),
{
    let added = st2.findings.skip(st.findings.len() as int);
    assert(st2.findings =~= st.findings + added);
    Seq::filter_distributes_over_add(st.findings, added, p);
    assert forall|i: int| 0 <= i < added.len() implies !p(#[trigger] added[i]) by {
        assert(added[i] == st2.findings[st.findings.len() + i]);
    }
    crate::laws::lemma_filter_none(added, p);
    assert(added.filter(p) =~= Seq::<FindingView>::empty());
    assert(st2.findings.filter(p) =~= st.findings.filter(p));
}

/// The duplicates stay as expected over one document.
proof fn lemma_duplicates_step(s: LoadState, d: Document, a: Seq<char>)
    requires
        duplicates_of(s.findings, a) == expected_duplicates(a, files_at(s.resources, a)),
    ensures
        files_at(load_document(s, d).resources, a) == files_at(s.resources, a) + (if opts_in(d)
            && view_addr(doc_resource(d)) == a {
            seq![d.file@]
        } else {
            Seq::empty()
        }),
        duplicates_of(load_document(s, d).findings, a) == expected_duplicates(
            a,
            files_at(load_document(s, d).resources, a),
        ),
{
    lemma_load_codes_distinct();
    let s2 = load_document(s, d);
    let q = |x: FindingView| x.code == "duplicate-id"@ && x.resource == Some(a);
    let pr = |r: ResourceView| view_addr(r) == a;
    let files = files_at(s.resources, a);
    lemma_document_findings(s, d);
    lemma_load_document_shape(s, d);
    if opts_in(d) && view_addr(doc_resource(d)) == a {
        s.resources.lemma_filter_push(doc_resource(d), pr);
        assert(s2.resources.filter(pr) == s.resources.filter(pr).push(doc_resource(d)));
        assert(files_at(s2.resources, a) =~= files.push(d.file@));
        let m = d.parsed->Ok_0;
        let api = m.str_field("api"@)->0;
        let ty = m.str_field("type"@)->0;
        let id = m.str_field("id"@)->0;
        assert(a == crate::model::address(ty, id));
        let st1 = check_api_version(s, d.file@, api);
        assert(keeps_findings(s, st1));
        assert(st1.findings.filter(q) == s.findings.filter(q)) by {
            lemma_filter_kept(s, st1, q);
        }
        let r = add_resource(st1, d, m, ty, id);
        assert(s2 == r);
        lemma_first_file_is_first(s.resources, a);
        let st1a = if !crate::ids::is_valid_id(id) {
            crate::load::with_finding(st1, r.findings[st1.findings.len() as int])
        } else {
            st1
        };
        let st2 = if !is_core_type(ty) && !has_prefix(ty, "x-"@) {
            crate::load::with_finding(st1a, r.findings[st1a.findings.len() as int])
        } else {
            st1a
        };
        assert(st2.findings.filter(q) == s.findings.filter(q)) by {
            lemma_filter_kept(st1, st2, q);
        }
        assert(st2.resources == s.resources);
        if files.len() > 0 {
            let x = duplicate_finding(a, files[0], d.file@);
            assert(r.findings == st2.findings.push(x));
            st2.findings.lemma_filter_push(x, q);
            assert(duplicates_of(s2.findings, a) =~= expected_duplicates(a, files).push(x));
            assert(expected_duplicates(a, files.push(d.file@)) =~= expected_duplicates(a, files).push(x));
        } else {
            assert(r.findings == st2.findings);
            assert(expected_duplicates(a, files.push(d.file@)) =~= expected_duplicates(a, files));
        }
    } else {
        if opts_in(d) {
            s.resources.lemma_filter_push(doc_resource(d), pr);
        }
        assert(s2.resources.filter(pr) == s.resources.filter(pr));
        assert(files_at(s2.resources, a) =~= files);
        assert forall|k: int|
            s.findings.len() <= k < s2.findings.len() implies !q(#[trigger] s2.findings[k]) by {
            assert(doc_finding(d, s2.findings[k]));
        }
        lemma_filter_kept(s, s2, q);
    }
}

/// Ids are unique per type, and each clash is reported exactly once: loading keeps every
/// resource at address `a` (the earlier ones, then the documents that define `a`, in order),
/// and the `duplicate-id` findings naming `a` are one L0 error for each resource at `a` after
/// the first, the `k`-th naming the first file and the `k + 1`-th.
pub proof fn law_duplicates_counted(st: LoadState, ds: Seq<Document>, a: Seq<char>)
    requires
        duplicates_of(st.findings, a) == expected_duplicates(a, files_at(st.resources, a)),
    ensures
        files_at(load_documents(st, ds).resources, a) == files_at(st.resources, a) + documents_at(
            ds,
            a,
        ),
        duplicates_of(load_documents(st, ds).findings, a) == expected_duplicates(
            a,
            files_at(load_documents(st, ds).resources, a),
        ),
    decreases ds.len(),
{
    let pd = |d: Document| opts_in(d) && view_addr(doc_resource(d)) == a;
    if ds.len() == 0 {
        assert(ds.filter(pd) =~= Seq::<Document>::empty()) by {
            reveal(Seq::filter);
        }
        assert(files_at(st.resources, a) + documents_at(ds, a) =~= files_at(st.resources, a));
    } else {
        let prev = ds.drop_last();
        law_duplicates_counted(st, prev, a);
        let mid = load_documents(st, prev);
        lemma_duplicates_step(mid, ds.last(), a);
        assert(ds =~= prev.push(ds.last()));
        prev.lemma_filter_push(ds.last(), pd);
        if pd(ds.last()) {
            assert(documents_at(ds, a) =~= documents_at(prev, a).push(ds.last().file@));
        } else {
            assert(documents_at(ds, a) =~= documents_at(prev, a));
        }
        assert(files_at(load_documents(st, ds).resources, a) =~= files_at(st.resources, a)
            + documents_at(ds, a));
    }
}

/// From a fresh load (the manifest's findings, no resources): the resources at `a` come from
/// exactly the documents that define `a`, in order, and there is one `duplicate-id` error per
/// resource at `a` after the first, naming the first file and the later one.
pub proof fn law_duplicates_counted_from_manifest(m: ManifestSource, ds: Seq<Document>, a: Seq<char>)
    ensures
        files_at(load_documents(initial_state(m), ds).resources, a) == documents_at(ds, a),
        duplicates_of(load_documents(initial_state(m), ds).findings, a) == expected_duplicates(
            a,
            documents_at(ds, a),
        ),
{
    let st = initial_state(m);
    let q = |x: FindingView| x.code == "duplicate-id"@ && x.resource == Some(a);
    assert forall|i: int| 0 <= i < st.findings.len() implies !q(#[trigger] st.findings[i]) by {}
    crate::laws::lemma_filter_none(st.findings, q);
    assert(st.resources.filter(|r: ResourceView| view_addr(r) == a) =~= Seq::<ResourceView>::empty()) by {
        reveal(Seq::filter);
    }
    assert(duplicates_of(st.findings, a) =~= expected_duplicates(a, files_at(st.resources, a)));
    law_duplicates_counted(st, ds, a);
    assert(files_at(st.resources, a) + documents_at(ds, a) =~= documents_at(ds, a));
}

/// The `invalid-frontmatter` error on `d`'s file, when its frontmatter mentions `API_PREFIX`.
pub open spec fn expected_for_unparsable(d: Document) -> Seq<FindingView> {
    if first_occurrence(d.front@, API_PREFIX@) is Some {
        seq![
            mk_finding(
                "L0"@,
                "error"@,
                "invalid-frontmatter"@,
                Some(d.file@),
                None,
                None,
                "frontmatter does not parse as YAML: "@ + d.parsed->Err_0@,
            ),
        ]
    } else {
        Seq::empty()
    }
}

proof fn lemma_unparsable_induction(st: LoadState, ds: Seq<Document>, j: int, a: Seq<char>)
    requires
        0 <= j,
        sole_at(ds, j, a),
        j < ds.len() ==> (ds[j].parsed is Err && ds[j].file@ == a),
        naming(st.findings, a) == Seq::<FindingView>::empty(),
    ensures
        j >= ds.len() ==> naming(load_documents(st, ds).findings, a) == Seq::<FindingView>::empty(),
        j < ds.len() ==> naming(load_documents(st, ds).findings, a) == expected_for_unparsable(
            ds[j],
        ),
    decreases ds.len(),
{
    if ds.len() > 0 {
        let prev = ds.drop_last();
        let l = ds.len() - 1;
        assert forall|jj: int| 0 <= jj < prev.len() && jj != j implies (#[trigger] prev[jj]).file@ != a
            && (!opts_in(prev[jj]) || view_addr(doc_resource(prev[jj])) != a) by {
            assert(prev[jj] == ds[jj]);
        }
        if j < l {
            assert(prev[j] == ds[j]);
        }
        lemma_unparsable_induction(st, prev, j, a);
        let mid = load_documents(st, prev);
        let d = ds[l];
        if j == l {
            let p = |x: FindingView| x.resource == Some(a);
            if first_occurrence(d.front@, API_PREFIX@) is Some {
                let x = expected_for_unparsable(d)[0];
                mid.findings.lemma_filter_push(x, p);
                assert(load_document(mid, d).findings == mid.findings.push(x));
                assert(naming(load_document(mid, d).findings, a) =~= expected_for_unparsable(d));
            } else {
                assert(load_document(mid, d) == mid);
            }
        } else {
            lemma_other_document(mid, d, a);
        }
    }
}

/// An unparsable frontmatter is the only subject of the findings that name its file: when no
/// other document comes from that file or defines it as an address, the findings naming the
/// file are exactly its `invalid-frontmatter` error (none when it does not mention
/// `API_PREFIX`).
pub proof fn law_unparsable_file_named_once(m: ManifestSource, ds: Seq<Document>, j: int)
    requires
        0 <= j < ds.len(),
        ds[j].parsed is Err,
        sole_at(ds, j, ds[j].file@),
    ensures
        naming(load_documents(initial_state(m), ds).findings, ds[j].file@) == expected_for_unparsable(
            ds[j],
        ),
{
    lemma_initial_state_empty(m, ds[j].file@);
    lemma_unparsable_induction(initial_state(m), ds, j, ds[j].file@);
}

} // verus!
