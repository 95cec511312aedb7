//! Level L0: the manifest, resource discovery and the envelope of each resource.
use vstd::prelude::*;
use crate::frontmatter::{prose_links, scan_prose_refs};
use crate::ids::{is_valid_id, valid_id};
use crate::model::{
    address, finding, finding_views, mk_finding, resource_views, slash_join, Finding, FindingView,
    Resource, ResourceView, Workspace, API_PREFIX, API_V0,
};
use crate::text::{first_occurrence, has_prefix, starts_with, str_eq, text_contains};
use crate::validate::push_finding;
use crate::yaml::YamlMapping;

verus! {

/// What became of the manifest `company.yaml` at the workspace root.
pub enum ManifestSource {
    /// There is no readable `company.yaml`.
    Missing,
    /// `company.yaml` is not a YAML mapping; the parser's message.
    Unparsable(String),
    /// The parsed manifest.
    Parsed(YamlMapping),
}

/// A markdown file with a frontmatter block, as `split_frontmatter` cut it.
pub struct Document {
    /// Path relative to the workspace root, `/`-separated.
    pub file: String,
    /// The frontmatter text.
    pub front: String,
    /// The text after the frontmatter.
    pub body: String,
    /// The frontmatter parsed as a YAML mapping, or the parser's message.
    pub parsed: Result<YamlMapping, String>,
}

/// The findings about the manifest.
pub open spec fn manifest_findings(m: ManifestSource) -> Seq<FindingView> {
    match m {
        ManifestSource::Missing => seq![
            mk_finding(
                "L0"@,
                "error"@,
                "missing-manifest"@,
                None,
                None,
                None,
                "company.yaml not found at workspace root"@,
            ),
        ],
        ManifestSource::Unparsable(e) => seq![
            mk_finding(
                "L0"@,
                "error"@,
                "invalid-manifest"@,
                None,
                None,
                None,
                "company.yaml does not parse as YAML: "@ + e@,
            ),
        ],
        ManifestSource::Parsed(map) => {
            let api = match map.str_field("api"@) {
                Some(a) => a,
                None => Seq::empty(),
            };
            if has_prefix(api, API_PREFIX@) {
                Seq::empty()
            } else {
                seq![
                    mk_finding(
                        "L0"@,
                        "error"@,
                        "manifest-api"@,
                        None,
                        Some("api"@),
                        None,
                        "company.yaml api must start with "@ + API_PREFIX@ + " (got '"@ + api
                            + "')"@,
                    ),
                ]
            }
        },
    }
}

/// The core resource types.
pub open spec fn is_core_type(t: Seq<char>) -> bool {
    t == "company"@ || t == "goal"@ || t == "role"@ || t == "process"@ || t == "policy"@ || t
        == "product"@ || t == "decision"@ || t == "module"@
}

/// The file of the first resource in `rs` with address `addr`.
pub open spec fn first_file_at(rs: Seq<ResourceView>, addr: Seq<char>) -> Option<Seq<char>>
    decreases rs.len(),
{
    if rs.len() == 0 {
        None
    } else if address(rs[0].resource_type, rs[0].id) == addr {
        Some(rs[0].file)
    } else {
        first_file_at(rs.drop_first(), addr)
    }
}

/// Findings and resources gathered so far.
pub struct LoadState {
    pub findings: Seq<FindingView>,
    pub resources: Seq<ResourceView>,
}

/// The state with one more finding.
pub open spec fn with_finding(st: LoadState, f: FindingView) -> LoadState {
    LoadState { findings: st.findings.push(f), ..st }
}

/// The state after a warning for an api version other than `API_V0`.
pub open spec fn check_api_version(st: LoadState, file: Seq<char>, api: Seq<char>) -> LoadState {
    if api != API_V0@ {
        with_finding(
            st,
            mk_finding(
                "L0"@,
                "warning"@,
                "unknown-api-version"@,
                Some(file),
                Some("api"@),
                None,
                "unknown api version '"@ + api + "' (this build knows "@ + API_V0@ + ")"@,
            ),
        )
    } else {
        st
    }
}

/// The state after the checks on a resource's id, type and address, and the resource added.
pub open spec fn add_resource(
    st: LoadState,
    d: Document,
    m: YamlMapping,
    ty: Seq<char>,
    id: Seq<char>,
) -> LoadState {
    let addr = address(ty, id);
    let st1 = if !is_valid_id(id) {
        with_finding(
            st,
            mk_finding(
                "L0"@,
                "error"@,
                "invalid-id"@,
                Some(addr),
                Some("id"@),
                None,
                "id '"@ + id + "' must be kebab-case [a-z0-9-]"@,
            ),
        )
    } else {
        st
    };
    let st2 = if !is_core_type(ty) && !has_prefix(ty, "x-"@) {
        with_finding(
            st1,
            mk_finding(
                "L0"@,
                "warning"@,
                "unknown-type"@,
                Some(addr),
                Some("type"@),
                None,
                "type '"@ + ty
                    + "' is neither a core type nor x- namespaced (preserved, not validated)"@,
            ),
        )
    } else {
        st1
    };
    let st3 = match first_file_at(st2.resources, addr) {
        Some(other) => with_finding(
            st2,
            mk_finding(
                "L0"@,
                "error"@,
                "duplicate-id"@,
                Some(addr),
                None,
                None,
                "'"@ + addr + "' defined in both "@ + other + " and "@ + d.file@,
            ),
        ),
        None => st2,
    };
    LoadState {
        resources: st3.resources.push(
            ResourceView {
                resource_type: ty,
                id,
                title: m.str_field("title"@),
                file: d.file@,
                fields: m,
                prose_refs: prose_links(d.body@),
                body: d.body@,
            },
        ),
        ..st3
    }
}

/// The state after one document: a document whose frontmatter opts in with an `api` key that
/// starts with `API_PREFIX` becomes a resource when its envelope has a `type` and an `id`;
/// every other document is ignored, except that an unparsable frontmatter that mentions
/// `API_PREFIX` is reported.
pub open spec fn load_document(st: LoadState, d: Document) -> LoadState {
    match d.parsed {
        Err(e) => if first_occurrence(d.front@, API_PREFIX@) is Some {
            with_finding(
                st,
                mk_finding(
                    "L0"@,
                    "error"@,
                    "invalid-frontmatter"@,
                    Some(d.file@),
                    None,
                    None,
                    "frontmatter does not parse as YAML: "@ + e@,
                ),
            )
        } else {
            st
        },
        Ok(m) => match m.str_field("api"@) {
            None => st,
            Some(api) => if !has_prefix(api, API_PREFIX@) {
                st
            } else {
                let st1 = check_api_version(st, d.file@, api);
                match m.str_field("type"@) {
                    None => with_finding(
                        st1,
                        mk_finding(
                            "L0"@,
                            "error"@,
                            "missing-type"@,
                            Some(d.file@),
                            Some("type"@),
                            None,
                            "resource envelope has no 'type'"@,
                        ),
                    ),
                    Some(ty) => match m.str_field("id"@) {
                        None => with_finding(
                            st1,
                            mk_finding(
                                "L0"@,
                                "error"@,
                                "missing-id"@,
                                Some(d.file@),
                                Some("id"@),
                                None,
                                "resource envelope has no 'id'"@,
                            ),
                        ),
                        Some(id) => add_resource(st1, d, m, ty, id),
                    },
                }
            },
        },
    }
}

/// The state after a sequence of documents, in order.
pub open spec fn load_documents(st: LoadState, ds: Seq<Document>) -> LoadState
    decreases ds.len(),
{
    if ds.len() == 0 {
        st
    } else {
        load_document(load_documents(st, ds.drop_last()), ds.last())
    }
}

/// The state of a workspace.
pub open spec fn state_of(ws: Workspace) -> LoadState {
    LoadState { findings: finding_views(ws.findings@), resources: resource_views(ws.resources@) }
}

/// Appends a finding to the workspace.
fn add_finding(ws: &mut Workspace, f: Finding)
    ensures
        state_of(*final(ws)) == with_finding(state_of(*old(ws)), f@),
        final(ws).root == old(ws).root,
{
    push_finding(&mut ws.findings, f);
}

/// Whether `t` is a core resource type.
pub fn core_type(t: &str) -> (b: bool)
    ensures
        b == is_core_type(t@),
{
    str_eq(t, "company") || str_eq(t, "goal") || str_eq(t, "role") || str_eq(t, "process")
        || str_eq(t, "policy") || str_eq(t, "product") || str_eq(t, "decision") || str_eq(
        t,
        "module",
    )
}

/// The file of the first resource with address `addr`.
fn first_file(rs: &Vec<Resource>, addr: &str) -> (r: Option<String>)
    ensures
        opt_view_eq(r, first_file_at(resource_views(rs@), addr@)),
{
    let ghost vs = resource_views(rs@);
    let mut i: usize = 0;
    assert(vs.skip(0) =~= vs);
    while i < rs.len()
        invariant
            i <= rs@.len(),
            vs == resource_views(rs@),
            first_file_at(vs.skip(i as int), addr@) == first_file_at(vs, addr@),
        decreases rs@.len() - i,
    {
        assert(vs.skip(i as int).drop_first() =~= vs.skip(i + 1));
        let a = rs[i].addr();
        if str_eq(a.as_str(), addr) {
            return Some(rs[i].file.clone());
        }
        i = i + 1;
    }
    None
}

/// `r` holds exactly the characters `o` names.
pub open spec fn opt_view_eq(r: Option<String>, o: Option<Seq<char>>) -> bool {
    match r {
        Some(s) => o == Some(s@),
        None => o is None,
    }
}

/// Adds the resource with the given (present) type and id after the id, type and address checks.
fn ingest_resource(
    ws: &mut Workspace,
    file: String,
    body: String,
    m: YamlMapping,
    ty: String,
    id: String,
    Ghost(d): Ghost<Document>,
)
    requires
        d.file@ == file@,
        d.body@ == body@,
    ensures
        state_of(*final(ws)) == add_resource(state_of(*old(ws)), d, m, ty@, id@),
        final(ws).root == old(ws).root,
{
    let addr = slash_join(ty.as_str(), id.as_str());
    if !valid_id(id.as_str()) {
        let mut msg = "id '".to_owned();
        msg.append(id.as_str());
        msg.append("' must be kebab-case [a-z0-9-]");
        add_finding(ws, finding("L0", "error", "invalid-id", Some(addr.clone()), Some("id"), None, msg));
    }
    if !core_type(ty.as_str()) && !starts_with(ty.as_str(), "x-") {
        let mut msg = "type '".to_owned();
        msg.append(ty.as_str());
        msg.append("' is neither a core type nor x- namespaced (preserved, not validated)");
        add_finding(
            ws,
            finding("L0", "warning", "unknown-type", Some(addr.clone()), Some("type"), None, msg),
        );
    }
    match first_file(&ws.resources, addr.as_str()) {
        Some(other) => {
            let mut msg = "'".to_owned();
            msg.append(addr.as_str());
            msg.append("' defined in both ");
            msg.append(other.as_str());
            msg.append(" and ");
            msg.append(file.as_str());
            add_finding(ws, finding("L0", "error", "duplicate-id", Some(addr.clone()), None, None, msg));
        },
        None => {},
    }
    let title = m.get_str("title");
    let prose_refs = scan_prose_refs(body.as_str());
    let r = Resource { resource_type: ty, id, title, file, fields: m, prose_refs, body };
    let ghost rv = r@;
    let ghost before = ws.resources@;
    ws.resources.push(r);
    assert(resource_views(ws.resources@) =~= resource_views(before).push(rv));
}

/// Takes in one document: checks its envelope and adds it as a resource when it is one.
fn ingest_document(ws: &mut Workspace, d: Document)
    ensures
        state_of(*final(ws)) == load_document(state_of(*old(ws)), d),
        final(ws).root == old(ws).root,
{
    let ghost dd = d;
    let Document { file, front, body, parsed } = d;
    match parsed {
        Err(e) => {
            if text_contains(front.as_str(), API_PREFIX) {
                let mut msg = "frontmatter does not parse as YAML: ".to_owned();
                msg.append(e.as_str());
                add_finding(ws, finding("L0", "error", "invalid-frontmatter", Some(file), None, None, msg));
            }
        },
        Ok(m) => {
            let api = match m.get_str("api") {
                Some(a) => a,
                None => {
                    return;
                },
            };
            if !starts_with(api.as_str(), API_PREFIX) {
                return;
            }
            if !str_eq(api.as_str(), API_V0) {
                let mut msg = "unknown api version '".to_owned();
                msg.append(api.as_str());
                msg.append("' (this build knows ");
                msg.append(API_V0);
                msg.append(")");
                add_finding(
                    ws,
                    finding("L0", "warning", "unknown-api-version", Some(file.clone()), Some("api"), None, msg),
                );
            }
            let ty = match m.get_str("type") {
                Some(t) => t,
                None => {
                    add_finding(
                        ws,
                        finding(
                            "L0",
                            "error",
                            "missing-type",
                            Some(file),
                            Some("type"),
                            None,
                            "resource envelope has no 'type'".to_owned(),
                        ),
                    );
                    return;
                },
            };
            let id = match m.get_str("id") {
                Some(i) => i,
                None => {
                    add_finding(
                        ws,
                        finding(
                            "L0",
                            "error",
                            "missing-id",
                            Some(file),
                            Some("id"),
                            None,
                            "resource envelope has no 'id'".to_owned(),
                        ),
                    );
                    return;
                },
            };
            ingest_resource(ws, file, body, m, ty, id, Ghost(dd));
        },
    }
}

/// Builds the workspace from the manifest and the markdown documents with a frontmatter block
/// (in file-name order): level L0 findings and the resources.
pub fn load_workspace(root: String, manifest: ManifestSource, documents: Vec<Document>) -> (ws:
    Workspace)
    ensures
        ws.root == root,
        state_of(ws) == load_documents(
            LoadState { findings: manifest_findings(manifest), resources: Seq::empty() },
            documents@,
        ),
{
    let mut ws = Workspace { root, resources: Vec::new(), findings: Vec::new() };
    match &manifest {
        ManifestSource::Missing => {
            add_finding(
                &mut ws,
                finding(
                    "L0",
                    "error",
                    "missing-manifest",
                    None,
                    None,
                    None,
                    "company.yaml not found at workspace root".to_owned(),
                ),
            );
        },
        ManifestSource::Unparsable(e) => {
            let mut msg = "company.yaml does not parse as YAML: ".to_owned();
            msg.append(e.as_str());
            add_finding(&mut ws, finding("L0", "error", "invalid-manifest", None, None, None, msg));
        },
        ManifestSource::Parsed(m) => {
            let api = match m.get_str("api") {
                Some(a) => a,
                None => String::new(),
            };
            if !starts_with(api.as_str(), API_PREFIX) {
                let mut msg = "company.yaml api must start with ".to_owned();
                msg.append(API_PREFIX);
                msg.append(" (got '");
                msg.append(api.as_str());
                msg.append("')");
                add_finding(&mut ws, finding("L0", "error", "manifest-api", None, Some("api"), None, msg));
            }
        },
    }
    let ghost start = LoadState { findings: manifest_findings(manifest), resources: Seq::empty() };
    assert(state_of(ws) == start) by {
        assert(finding_views(ws.findings@) =~= manifest_findings(manifest));
        assert(resource_views(ws.resources@) =~= Seq::<ResourceView>::empty());
    }
    for d in it: documents
        invariant
            ws.root == root,
            it.seq() == documents@,
            state_of(ws) == load_documents(start, it.seq().take(it.index())),
    {
        proof {
            assert(it.seq().take(it.index() + 1).drop_last() =~= it.seq().take(it.index()));
        }
        ingest_document(&mut ws, d);
    }
    assert(documents@.take(documents@.len() as int) =~= documents@);
    ws
}

} // verus!
