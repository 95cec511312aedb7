//! The workspace model: resources, findings, and the reference graph.
use vstd::prelude::*;
use crate::yaml::YamlMapping;

verus! {

/// The `api` prefix that marks a file (and the manifest) as Company as Code.
pub const API_PREFIX: &'static str = "company-as-code.org/";

/// The envelope version this library knows.
pub const API_V0: &'static str = "company-as-code.org/v0";

/// A validation finding: conformance level, severity, a stable code, where it was found,
/// and a message for people.
#[derive(Debug, Clone)]
pub struct Finding {
    pub level: String,
    pub severity: String,
    pub code: String,
    pub resource: Option<String>,
    pub field: Option<String>,
    pub target: Option<String>,
    pub message: String,
}

/// A finding as plain character sequences.
pub struct FindingView {
    pub level: Seq<char>,
    pub severity: Seq<char>,
    pub code: Seq<char>,
    pub resource: Option<Seq<char>>,
    pub field: Option<Seq<char>>,
    pub target: Option<Seq<char>>,
    pub message: Seq<char>,
}

/// The characters of an optional string.
pub open spec fn opt_view(o: Option<String>) -> Option<Seq<char>> {
    match o {
        Some(s) => Some(s@),
        None => None,
    }
}

impl View for Finding {
    type V = FindingView;

    open spec fn view(&self) -> FindingView {
        FindingView {
            level: self.level@,
            severity: self.severity@,
            code: self.code@,
            resource: opt_view(self.resource),
            field: opt_view(self.field),
            target: opt_view(self.target),
            message: self.message@,
        }
    }
}

/// The views of a sequence of findings.
pub open spec fn finding_views(fs: Seq<Finding>) -> Seq<FindingView> {
    fs.map_values(|f: Finding| f@)
}

/// A finding built from its parts.
pub open spec fn mk_finding(
    level: Seq<char>,
    severity: Seq<char>,
    code: Seq<char>,
    resource: Option<Seq<char>>,
    field: Option<Seq<char>>,
    target: Option<Seq<char>>,
    message: Seq<char>,
) -> FindingView {
    FindingView { level, severity, code, resource, field, target, message }
}

fn opt_owned(o: Option<&str>) -> (r: Option<String>)
    ensures
        opt_view(r) == match o {
            Some(s) => Some(s@),
            None => None::<Seq<char>>,
        },
{
    match o {
        Some(s) => Some(s.to_owned()),
        None => None,
    }
}

/// Builds a finding.
pub fn finding(
    level: &str,
    severity: &str,
    code: &str,
    resource: Option<String>,
    field: Option<&str>,
    target: Option<&str>,
    message: String,
) -> (f: Finding)
    ensures
        f@ == mk_finding(
            level@,
            severity@,
            code@,
            opt_view(resource),
            match field {
                Some(s) => Some(s@),
                None => None,
            },
            match target {
                Some(s) => Some(s@),
                None => None,
            },
            message@,
        ),
{
    Finding {
        level: level.to_owned(),
        severity: severity.to_owned(),
        code: code.to_owned(),
        resource,
        field: opt_owned(field),
        target: opt_owned(target),
        message,
    }
}

/// A resource: one markdown file whose frontmatter opts in through the `api` key.
#[derive(Debug)]
pub struct Resource {
    /// The resource's `type` (named `type` in the envelope).
    pub resource_type: String,
    pub id: String,
    pub title: Option<String>,
    /// Path of the file, relative to the workspace root, with `/` separators.
    pub file: String,
    /// The whole frontmatter envelope.
    pub fields: YamlMapping,
    /// The `[[type/id]]` links of the body.
    pub prose_refs: Vec<String>,
    pub body: String,
}

/// A resource as plain values.
pub struct ResourceView {
    pub resource_type: Seq<char>,
    pub id: Seq<char>,
    pub title: Option<Seq<char>>,
    pub file: Seq<char>,
    pub fields: YamlMapping,
    pub prose_refs: Seq<Seq<char>>,
    pub body: Seq<char>,
}

impl View for Resource {
    type V = ResourceView;

    open spec fn view(&self) -> ResourceView {
        ResourceView {
            resource_type: self.resource_type@,
            id: self.id@,
            title: opt_view(self.title),
            file: self.file@,
            fields: self.fields,
            prose_refs: self.prose_refs.deep_view(),
            body: self.body@,
        }
    }
}

/// The views of a sequence of resources.
pub open spec fn resource_views(rs: Seq<Resource>) -> Seq<ResourceView> {
    rs.map_values(|r: Resource| r@)
}

/// The address `type/id` of a resource with the given type and id.
pub open spec fn address(resource_type: Seq<char>, id: Seq<char>) -> Seq<char> {
    resource_type + seq!['/'] + id
}

/// The address of a resource.
pub open spec fn addr_of(r: Resource) -> Seq<char> {
    address(r.resource_type@, r.id@)
}

/// Joins two strings with a `/` between them.
pub fn slash_join(a: &str, b: &str) -> (r: String)
    ensures
        r@ == address(a@, b@),
{
    let mut r = a.to_owned();
    crate::text::push_char(&mut r, '/');
    r.append(b);
    r
}

impl Resource {
    /// The resource's address `type/id`.
    pub fn addr(&self) -> (r: String)
        ensures
            r@ == addr_of(*self),
    {
        slash_join(self.resource_type.as_str(), self.id.as_str())
    }
}

/// The addresses of a sequence of resources.
pub open spec fn addresses(rs: Seq<Resource>) -> Seq<Seq<char>> {
    rs.map_values(|r: Resource| addr_of(r))
}

/// A loaded and (possibly) validated company description.
pub struct Workspace {
    pub root: String,
    pub resources: Vec<Resource>,
    pub findings: Vec<Finding>,
}

/// A node of the reference graph: one resource.
#[derive(Debug, Clone)]
pub struct Node {
    pub node_type: String,
    pub id: String,
    pub title: Option<String>,
    pub file: String,
}

/// An edge of the reference graph: `from` refers to `to` through `field`
/// (`prose` for a prose link).
#[derive(Debug, Clone)]
pub struct Edge {
    pub from: String,
    pub to: String,
    pub field: String,
}

/// An edge as plain character sequences.
pub struct EdgeView {
    pub from: Seq<char>,
    pub to: Seq<char>,
    pub field: Seq<char>,
}

impl View for Edge {
    type V = EdgeView;

    open spec fn view(&self) -> EdgeView {
        EdgeView { from: self.from@, to: self.to@, field: self.field@ }
    }
}

/// The reference graph: one node per resource and one edge per resolved reference.
#[derive(Debug, Clone)]
pub struct Graph {
    pub nodes: Vec<Node>,
    pub edges: Vec<Edge>,
}

} // verus!
