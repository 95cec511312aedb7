use charta::yaml::values_equal;
use charta::plan::{plan_between, render, Plan};
use charta::report::{count_severity, find_resource, format_edge, format_finding, format_summary};
use charta::{
    backlinks, graph, load_workspace, orphans, scan_prose_refs, split_frontmatter, valid_addr,
    valid_id, validate, Document, Finding, ManifestSource, Workspace, YamlEntry, YamlMapping,
    YamlValue,
};

fn s(v: &str) -> YamlValue {
    YamlValue::Str(v.to_string())
}

fn list(items: &[&str]) -> YamlValue {
    YamlValue::Sequence(items.iter().map(|i| s(i)).collect())
}

fn mapping(pairs: Vec<(&str, YamlValue)>) -> YamlMapping {
    YamlMapping {
        entries: pairs
            .into_iter()
            .map(|(k, v)| YamlEntry { key: s(k), value: v })
            .collect(),
    }
}

fn doc(file: &str, pairs: Vec<(&str, YamlValue)>, body: &str) -> Document {
    Document {
        file: file.to_string(),
        front: String::new(),
        body: body.to_string(),
        parsed: Ok(mapping(pairs)),
    }
}

fn resource(file: &str, ty: &str, id: &str, extra: Vec<(&str, YamlValue)>, body: &str) -> Document {
    let mut pairs = vec![
        ("api", s("company-as-code.org/v0")),
        ("type", s(ty)),
        ("id", s(id)),
    ];
    pairs.extend(extra);
    doc(file, pairs, body)
}

fn good_manifest() -> ManifestSource {
    ManifestSource::Parsed(mapping(vec![("api", s("company-as-code.org/v0")), ("name", s("Acme"))]))
}

fn load(docs: Vec<Document>) -> Workspace {
    load_workspace("/company".to_string(), good_manifest(), docs)
}

fn codes(ws: &Workspace) -> Vec<(String, String, Option<String>)> {
    ws.findings
        .iter()
        .map(|f| (f.code.clone(), f.severity.clone(), f.resource.clone()))
        .collect()
}

fn find<'a>(ws: &'a Workspace, code: &str) -> &'a Finding {
    ws.findings.iter().find(|f| f.code == code).expect("finding present")
}

#[test]
fn ids_are_kebab_case() {
    assert!(valid_id("invoicing"));
    assert!(valid_id("a-b-1"));
    assert!(valid_id("9lives"));
    assert!(!valid_id(""));
    assert!(!valid_id("-leading"));
    assert!(!valid_id("Finance"));
    assert!(!valid_id("snake_case"));
    assert!(!valid_id("with space"));
    assert!(!valid_id("ümlaut"));
}

#[test]
fn addresses_are_type_slash_id() {
    assert!(valid_addr("role/finance"));
    assert!(valid_addr("x-coos/approval-card"));
    assert!(valid_addr("x-/y"));
    assert!(!valid_addr("role"));
    assert!(!valid_addr("Role/finance"));
    assert!(!valid_addr("role/fin/ance"));
    assert!(!valid_addr("/finance"));
    assert!(!valid_addr("role/"));
    assert!(!valid_addr("-x/y"));
}

#[test]
fn frontmatter_splits_at_the_first_closing_fence() {
    assert_eq!(
        split_frontmatter("---\napi: x\n---\nbody\n---\nmore\n"),
        Some(("api: x".to_string(), "body\n---\nmore\n".to_string()))
    );
    assert_eq!(
        split_frontmatter("---\r\napi: x\r\n---\r\nbody"),
        Some(("api: x\r".to_string(), "body".to_string()))
    );
    assert_eq!(
        split_frontmatter("---\napi: x\n---"),
        Some(("api: x".to_string(), String::new()))
    );
    assert_eq!(
        split_frontmatter("---\r\napi: x\r\n---"),
        Some(("api: x\r".to_string(), String::new()))
    );
    assert_eq!(split_frontmatter("# no frontmatter\n"), None);
    assert_eq!(split_frontmatter("---\napi: x\nnever closed\n"), None);
    assert_eq!(split_frontmatter(""), None);
}

#[test]
fn frontmatter_may_be_empty() {
    assert_eq!(
        split_frontmatter("---\n\n---\nbody"),
        Some((String::new(), "body".to_string()))
    );
}

#[test]
fn empty_frontmatter_block_is_a_block() {
    assert_eq!(
        split_frontmatter("---\n---\nbody\n"),
        Some((String::new(), "body\n".to_string()))
    );
    assert_eq!(
        split_frontmatter("---\r\n---\r\nbody"),
        Some((String::new(), "body".to_string()))
    );
    assert_eq!(split_frontmatter("---\n---"), Some((String::new(), String::new())));
    assert_eq!(
        split_frontmatter("---\n---\napi: x\n---\nbody"),
        Some((String::new(), "api: x\n---\nbody".to_string()))
    );
}

#[test]
fn prose_links_need_a_slash_and_no_spaces() {
    assert_eq!(
        scan_prose_refs("see [[role/finance]] and [[not a/ref]] and [[goal/x]]."),
        vec!["role/finance".to_string(), "goal/x".to_string()]
    );
    assert_eq!(scan_prose_refs("[[no-slash]] [[a/b"), Vec::<String>::new());
    assert_eq!(scan_prose_refs("[[[role/x]]"), vec!["[role/x".to_string()]);
    assert_eq!(scan_prose_refs("[[a/\nb]] [[c/d]]"), vec!["c/d".to_string()]);
    assert_eq!(scan_prose_refs(""), Vec::<String>::new());
    assert_eq!(scan_prose_refs("[[ü/ß]]"), vec!["ü/ß".to_string()]);
}

#[test]
fn the_manifest_is_checked() {
    let ws = load_workspace("/c".to_string(), ManifestSource::Missing, vec![]);
    assert_eq!(ws.findings.len(), 1);
    assert_eq!(ws.findings[0].code, "missing-manifest");
    assert_eq!(ws.findings[0].level, "L0");
    assert_eq!(ws.findings[0].message, "company.yaml not found at workspace root");

    let ws = load_workspace("/c".to_string(), ManifestSource::Unparsable("bad indent".to_string()), vec![]);
    assert_eq!(ws.findings[0].code, "invalid-manifest");
    assert_eq!(ws.findings[0].message, "company.yaml does not parse as YAML: bad indent");

    let ws = load_workspace(
        "/c".to_string(),
        ManifestSource::Parsed(mapping(vec![("api", s("example.org/v1"))])),
        vec![],
    );
    assert_eq!(ws.findings[0].code, "manifest-api");
    assert_eq!(ws.findings[0].field.as_deref(), Some("api"));
    assert_eq!(
        ws.findings[0].message,
        "company.yaml api must start with company-as-code.org/ (got 'example.org/v1')"
    );

    let ws = load_workspace("/c".to_string(), ManifestSource::Parsed(mapping(vec![])), vec![]);
    assert_eq!(
        ws.findings[0].message,
        "company.yaml api must start with company-as-code.org/ (got '')"
    );

    let ws = load_workspace("/c".to_string(), good_manifest(), vec![]);
    assert!(ws.findings.is_empty());
    assert_eq!(ws.root, "/c");
}

#[test]
fn only_opted_in_files_are_resources() {
    let ws = load(vec![
        doc("notes/okf.md", vec![("type", s("note")), ("title", s("An OKF concept"))], ""),
        doc("notes/other.md", vec![("api", s("example.org/v1")), ("type", s("x"))], ""),
        resource("roles/finance.md", "role", "finance", vec![("title", s("Finance"))], "Body [[goal/g]]"),
    ]);
    assert_eq!(ws.resources.len(), 1);
    let r = &ws.resources[0];
    assert_eq!(r.addr(), "role/finance");
    assert_eq!(r.title.as_deref(), Some("Finance"));
    assert_eq!(r.file, "roles/finance.md");
    assert_eq!(r.body, "Body [[goal/g]]");
    assert_eq!(r.prose_refs, vec!["goal/g".to_string()]);
    assert!(ws.findings.is_empty());
}

#[test]
fn envelope_defects_are_reported() {
    let ws = load(vec![
        doc("a.md", vec![("api", s("company-as-code.org/v1")), ("type", s("role")), ("id", s("a"))], ""),
        doc("b.md", vec![("api", s("company-as-code.org/v0")), ("id", s("b"))], ""),
        doc("c.md", vec![("api", s("company-as-code.org/v0")), ("type", s("role"))], ""),
        resource("d.md", "role", "Bad_Id", vec![], ""),
        resource("e.md", "gadget", "e", vec![], ""),
        resource("f.md", "x-coos", "f", vec![], ""),
    ]);
    assert_eq!(
        codes(&ws),
        vec![
            ("unknown-api-version".to_string(), "warning".to_string(), Some("a.md".to_string())),
            ("missing-type".to_string(), "error".to_string(), Some("b.md".to_string())),
            ("missing-id".to_string(), "error".to_string(), Some("c.md".to_string())),
            ("invalid-id".to_string(), "error".to_string(), Some("role/Bad_Id".to_string())),
            ("unknown-type".to_string(), "warning".to_string(), Some("gadget/e".to_string())),
        ]
    );
    assert_eq!(
        find(&ws, "unknown-api-version").message,
        "unknown api version 'company-as-code.org/v1' (this build knows company-as-code.org/v0)"
    );
    assert_eq!(find(&ws, "missing-type").message, "resource envelope has no 'type'");
    assert_eq!(find(&ws, "missing-id").message, "resource envelope has no 'id'");
    assert_eq!(find(&ws, "invalid-id").message, "id 'Bad_Id' must be kebab-case [a-z0-9-]");
    assert_eq!(
        find(&ws, "unknown-type").message,
        "type 'gadget' is neither a core type nor x- namespaced (preserved, not validated)"
    );
    // a, d, e, f are resources; b and c are not
    assert_eq!(ws.resources.len(), 4);
}

#[test]
fn duplicate_addresses_are_errors() {
    let ws = load(vec![
        resource("roles/a.md", "role", "finance", vec![], ""),
        resource("roles/b.md", "role", "finance", vec![], ""),
        resource("roles/c.md", "role", "finance", vec![], ""),
    ]);
    assert_eq!(ws.resources.len(), 3);
    assert_eq!(ws.findings.len(), 2);
    assert_eq!(ws.findings[0].code, "duplicate-id");
    assert_eq!(ws.findings[0].message, "'role/finance' defined in both roles/a.md and roles/b.md");
    assert_eq!(ws.findings[1].message, "'role/finance' defined in both roles/a.md and roles/c.md");
}

#[test]
fn unparsable_frontmatter_is_reported_only_when_it_opts_in() {
    let bad = |front: &str| Document {
        file: "p.md".to_string(),
        front: front.to_string(),
        body: String::new(),
        parsed: Err("did not find expected key".to_string()),
    };
    let ws = load(vec![bad("api: company-as-code.org/v0\n: :"), bad("title: [unclosed")]);
    assert_eq!(ws.findings.len(), 1);
    assert_eq!(ws.findings[0].code, "invalid-frontmatter");
    assert_eq!(ws.findings[0].resource.as_deref(), Some("p.md"));
    assert_eq!(
        ws.findings[0].message,
        "frontmatter does not parse as YAML: did not find expected key"
    );
    assert!(ws.resources.is_empty());
}

#[test]
fn tagged_strings_are_read_through_their_tags() {
    let ws = load(vec![doc(
        "r.md",
        vec![
            ("api", YamlValue::Tagged("str".to_string(), Box::new(s("company-as-code.org/v0")))),
            ("type", s("role")),
            ("id", s("r")),
        ],
        "",
    )]);
    assert_eq!(ws.resources.len(), 1);
}

fn company() -> Vec<Document> {
    vec![
        resource("roles/finance.md", "role", "finance", vec![], ""),
        resource("goals/cashflow.md", "goal", "cashflow", vec![("owner", s("role/finance"))], ""),
        resource(
            "processes/invoicing.md",
            "process",
            "invoicing",
            vec![
                ("owner", s("role/finance")),
                ("serves", list(&["goal/cashflow"])),
                ("title", s("Monthly invoicing")),
            ],
            "Exceptions go to [[role/finance]].",
        ),
    ]
}

#[test]
fn a_consistent_company_validates_green() {
    let mut ws = load(company());
    validate(&mut ws);
    assert_eq!(count_severity(&ws.findings, "error"), 0);
    assert_eq!(count_severity(&ws.findings, "warning"), 0);
    assert_eq!(ws.resources.len(), 3);
}

#[test]
fn reference_defects_are_errors() {
    let mut ws = load(vec![
        resource("roles/finance.md", "role", "finance", vec![], ""),
        resource(
            "processes/invoicing.md",
            "process",
            "invoicing",
            vec![
                ("owner", s("role/ops")),
                ("executed_by", s("nope")),
                ("serves", list(&["goal/cashflow", "role/finance"])),
                ("policies", s("policy/four-eyes")),
            ],
            "",
        ),
        resource("goals/g.md", "goal", "g", vec![("owner", YamlValue::Int(5))], "See [[role/ghost]]."),
        resource("goals/h.md", "goal", "h", vec![], ""),
    ]);
    validate(&mut ws);
    let got: Vec<(String, String, Option<String>, Option<String>, Option<String>, String)> = ws
        .findings
        .iter()
        .map(|f| {
            (
                f.level.clone(),
                f.code.clone(),
                f.resource.clone(),
                f.field.clone(),
                f.target.clone(),
                f.message.clone(),
            )
        })
        .collect();
    let e = |l: &str, c: &str, r: &str, f: Option<&str>, t: Option<&str>, m: &str| {
        (
            l.to_string(),
            c.to_string(),
            Some(r.to_string()),
            f.map(|x| x.to_string()),
            t.map(|x| x.to_string()),
            m.to_string(),
        )
    };
    assert_eq!(
        got,
        vec![
            e("L1", "unresolved-ref", "process/invoicing", Some("owner"), Some("role/ops"),
                "process/invoicing → owner: 'role/ops' does not exist"),
            e("L1", "invalid-ref", "process/invoicing", Some("executed_by"), Some("nope"),
                "'nope' is not a type/id reference"),
            e("L1", "unresolved-ref", "process/invoicing", Some("serves"), Some("goal/cashflow"),
                "process/invoicing → serves: 'goal/cashflow' does not exist"),
            e("L1", "invalid-ref", "process/invoicing", Some("policies"), None,
                "policies must be a list of references"),
            e("L1", "invalid-ref", "goal/g", Some("owner"), None, "owner must be a string reference"),
            e("L1", "unresolved-prose-ref", "goal/g", None, Some("role/ghost"),
                "prose link [[role/ghost]] does not resolve"),
            e("L2", "missing-required-field", "goal/h", Some("owner"), None,
                "type 'goal' requires field 'owner'"),
        ]
    );
    assert_eq!(find(&ws, "unresolved-prose-ref").severity, "warning");
    assert_eq!(count_severity(&ws.findings, "error"), 6);
    assert_eq!(count_severity(&ws.findings, "warning"), 1);
}

#[test]
fn validate_keeps_earlier_findings() {
    let mut ws = load(vec![
        resource("a.md", "gadget", "a", vec![], ""),
        resource("p.md", "process", "p", vec![], ""),
    ]);
    assert_eq!(ws.findings.len(), 1);
    validate(&mut ws);
    assert_eq!(ws.findings.len(), 2);
    assert_eq!(ws.findings[0].code, "unknown-type");
    assert_eq!(ws.findings[1].code, "missing-required-field");
    assert_eq!(ws.findings[1].message, "type 'process' requires field 'owner'");
}

#[test]
fn the_graph_holds_resolved_references_only() {
    let mut docs = company();
    docs.push(resource(
        "policies/p.md",
        "policy",
        "p",
        vec![("owner", s("role/missing"))],
        "[[goal/cashflow]] [[goal/none]]",
    ));
    let mut ws = load(docs);
    validate(&mut ws);
    let g = graph(&ws);
    assert_eq!(g.nodes.len(), 4);
    assert_eq!(g.nodes[2].node_type, "process");
    assert_eq!(g.nodes[2].title.as_deref(), Some("Monthly invoicing"));
    let edges: Vec<(String, String, String)> = g
        .edges
        .iter()
        .map(|e| (e.from.clone(), e.field.clone(), e.to.clone()))
        .collect();
    let t = |a: &str, b: &str, c: &str| (a.to_string(), b.to_string(), c.to_string());
    assert_eq!(
        edges,
        vec![
            t("goal/cashflow", "owner", "role/finance"),
            t("process/invoicing", "owner", "role/finance"),
            t("process/invoicing", "serves", "goal/cashflow"),
            t("process/invoicing", "prose", "role/finance"),
            t("policy/p", "prose", "goal/cashflow"),
        ]
    );
    assert_eq!(orphans(&g), vec!["process/invoicing".to_string(), "policy/p".to_string()]);
    let back: Vec<String> = backlinks(&g, "role/finance").iter().map(|e| e.from.clone()).collect();
    assert_eq!(back, vec!["goal/cashflow", "process/invoicing", "process/invoicing"]);
    assert!(backlinks(&g, "role/none").is_empty());
    assert_eq!(format_edge(backlinks(&g, "goal/cashflow")[0]), "process/invoicing --serves--> goal/cashflow");
}

#[test]
fn orphans_are_the_nodes_without_backlinks() {
    let mut ws = load(company());
    validate(&mut ws);
    let g = graph(&ws);
    let o = orphans(&g);
    for n in &g.nodes {
        let a = format!("{}/{}", n.node_type, n.id);
        assert_eq!(o.contains(&a), backlinks(&g, &a).is_empty());
    }
}

fn plan_of(base: Vec<Document>, cur: Vec<Document>) -> Plan {
    let mut b = load(base);
    validate(&mut b);
    let mut c = load(cur);
    validate(&mut c);
    plan_between("HEAD", &b, &c)
}

#[test]
fn a_plan_shows_what_a_change_touches() {
    let base = vec![
        resource("roles/ops.md", "role", "ops", vec![], ""),
        resource("roles/finance.md", "role", "finance", vec![("title", s("Finance"))], "old"),
        resource("goals/g.md", "goal", "g", vec![("owner", s("role/ops"))], ""),
        resource("processes/p.md", "process", "p", vec![("owner", s("role/finance"))], ""),
    ];
    let cur = vec![
        resource("roles/finance.md", "role", "finance", vec![("title", s("Money"))], "new"),
        resource("goals/g.md", "goal", "g", vec![("owner", s("role/ops"))], ""),
        resource("processes/p.md", "process", "p", vec![("owner", s("role/finance"))], ""),
        resource("roles/audit.md", "role", "audit", vec![], ""),
    ];
    let p = plan_of(base, cur);
    assert_eq!(p.from, "HEAD");
    assert_eq!(p.added, vec!["role/audit".to_string()]);
    assert_eq!(p.removed, vec!["role/ops".to_string()]);
    assert_eq!(p.changed.len(), 1);
    assert_eq!(p.changed[0].address, "role/finance");
    assert_eq!(p.changed[0].fields, vec!["title".to_string()]);
    assert!(p.changed[0].prose);
    assert_eq!(p.impacts.len(), 2);
    assert_eq!(p.resulting_errors, 1);
    assert_eq!(
        render(&p),
        "+ role/audit\n\
         ~ role/finance    (title, prose)\n\
         - role/ops\n\
         ! goal/g    owner → role/ops\n\
         ! process/p    owner → role/finance\n\
         1 added · 1 changed · 1 removed · 2 impacted · resulting errors: 1\n"
    );
}

#[test]
fn a_description_compared_with_itself_plans_nothing() {
    let p = plan_of(company(), company());
    assert!(p.added.is_empty() && p.removed.is_empty() && p.changed.is_empty() && p.impacts.is_empty());
    assert_eq!(p.resulting_errors, 0);
    assert_eq!(render(&p), "0 added · 0 changed · 0 removed · 0 impacted · resulting errors: 0\n");
}

#[test]
fn field_changes_are_listed_in_key_order_and_mappings_compare_without_order() {
    let m1 = YamlValue::Mapping(vec![
        YamlEntry { key: s("a"), value: YamlValue::Int(1) },
        YamlEntry { key: s("b"), value: YamlValue::Bool(true) },
    ]);
    let m2 = YamlValue::Mapping(vec![
        YamlEntry { key: s("b"), value: YamlValue::Bool(true) },
        YamlEntry { key: s("a"), value: YamlValue::Int(1) },
    ]);
    let base = vec![resource(
        "r.md",
        "role",
        "r",
        vec![("zeta", s("1")), ("meta", m1), ("alpha", YamlValue::Null), ("n", YamlValue::Float(7))],
        "",
    )];
    let cur = vec![resource(
        "r.md",
        "role",
        "r",
        vec![("meta", m2), ("zeta", s("2")), ("beta", YamlValue::Null), ("n", YamlValue::Float(7))],
        "",
    )];
    let p = plan_of(base, cur);
    assert_eq!(p.changed.len(), 1);
    assert_eq!(p.changed[0].fields, vec!["alpha".to_string(), "beta".to_string(), "zeta".to_string()]);
    assert!(!p.changed[0].prose);
    assert_eq!(render(&p), "~ role/r    (alpha, beta, zeta)\n0 added · 1 changed · 0 removed · 0 impacted · resulting errors: 0\n");
}

#[test]
fn plan_lists_are_sorted_and_unique() {
    let base = vec![
        resource("z.md", "role", "z", vec![], ""),
        resource("b.md", "role", "b", vec![], ""),
        resource("b2.md", "role", "b", vec![], ""),
    ];
    let cur = vec![
        resource("y.md", "role", "y", vec![], ""),
        resource("a.md", "goal", "a", vec![("owner", s("role/y"))], ""),
        resource("y2.md", "role", "y", vec![], ""),
    ];
    let p = plan_of(base, cur);
    assert_eq!(p.added, vec!["goal/a".to_string(), "role/y".to_string()]);
    assert_eq!(p.removed, vec!["role/b".to_string(), "role/z".to_string()]);
    assert_eq!(p.resulting_errors, 1);
}

#[test]
fn report_lines() {
    let mut ws = load(vec![resource("p.md", "process", "p", vec![("owner", s("role/x"))], "")]);
    validate(&mut ws);
    assert_eq!(
        format_finding(&ws.findings[0]),
        "L1 error [process/p] owner: process/p → owner: 'role/x' does not exist"
    );
    let ws2 = load_workspace("/c".to_string(), ManifestSource::Missing, vec![]);
    assert_eq!(
        format_finding(&ws2.findings[0]),
        "L0 error [-] company.yaml not found at workspace root"
    );
    assert_eq!(format_summary(3, 0, 12), "3 resources · 0 errors · 12 warnings");
    assert_eq!(format_summary(1234567, 10, 100), "1234567 resources · 10 errors · 100 warnings");
    assert_eq!(find_resource(&ws.resources, "process/p"), Some(0));
    assert_eq!(find_resource(&ws.resources, "process/q"), None);
}

#[test]
fn resource_address_joins_type_and_id() {
    let ws = load(vec![resource("x.md", "x-coos", "card", vec![], "")]);
    assert_eq!(ws.resources[0].addr(), "x-coos/card");
    assert!(valid_addr(&ws.resources[0].addr()));
}

#[test]
fn yaml_values_compare_as_yaml_does() {
    let e = |k: &str, v: YamlValue| YamlEntry { key: s(k), value: v };
    let a = YamlValue::Mapping(vec![e("x", YamlValue::Int(1)), e("y", list(&["p", "q"]))]);
    let b = YamlValue::Mapping(vec![e("y", list(&["p", "q"])), e("x", YamlValue::Int(1))]);
    let c = YamlValue::Mapping(vec![e("y", list(&["q", "p"])), e("x", YamlValue::Int(1))]);
    let d = YamlValue::Mapping(vec![e("x", YamlValue::Int(1))]);
    assert!(values_equal(&a, &b));
    assert!(!values_equal(&a, &c));
    assert!(!values_equal(&a, &d));
    assert!(values_equal(&YamlValue::Null, &YamlValue::Null));
    assert!(!values_equal(&YamlValue::Null, &YamlValue::Bool(false)));
    assert!(!values_equal(&YamlValue::Int(1), &YamlValue::Str("1".to_string())));
    let t1 = YamlValue::Tagged("t".to_string(), Box::new(s("v")));
    let t2 = YamlValue::Tagged("u".to_string(), Box::new(s("v")));
    assert!(values_equal(&t1, &YamlValue::Tagged("t".to_string(), Box::new(s("v")))));
    assert!(!values_equal(&t1, &t2));
    assert!(!values_equal(&t1, &s("v")));
}

#[test]
fn a_tagged_key_is_not_the_plain_key() {
    let owner_tagged = YamlEntry {
        key: YamlValue::Tagged("k".to_string(), Box::new(s("owner"))),
        value: s("role/r"),
    };
    let mut m = mapping(vec![
        ("api", s("company-as-code.org/v0")),
        ("type", s("process")),
        ("id", s("p")),
    ]);
    m.entries.push(owner_tagged);
    assert!(!m.contains_key("owner"));
    assert!(m.get("owner").is_none());
    assert_eq!(m.get_str("id"), Some("p".to_string()));
    let mut ws = load(vec![
        resource("r.md", "role", "r", vec![], ""),
        Document { file: "p.md".to_string(), front: String::new(), body: String::new(), parsed: Ok(m) },
    ]);
    validate(&mut ws);
    assert_eq!(ws.findings.len(), 1);
    assert_eq!(ws.findings[0].code, "missing-required-field");
}
