use charta::plan::{plan_between, render};
use charta::{
    backlinks, graph, load_workspace, orphans, scan_prose_refs, validate, Document,
    ManifestSource, Workspace, YamlEntry, YamlMapping, YamlValue,
};

fn s(v: &str) -> YamlValue {
    YamlValue::Str(v.to_string())
}

fn list(items: Vec<YamlValue>) -> YamlValue {
    YamlValue::Sequence(items)
}

fn mapping(pairs: Vec<(&str, YamlValue)>) -> YamlMapping {
    YamlMapping {
        entries: pairs
            .into_iter()
            .map(|(k, v)| YamlEntry { key: s(k), value: v })
            .collect(),
    }
}

fn doc(file: &str, pairs: Vec<(&str, YamlValue)>, body: &str) -> Document {
    Document {
        file: file.to_string(),
        front: String::new(),
        body: body.to_string(),
        parsed: Ok(mapping(pairs)),
    }
}

fn resource(file: &str, ty: &str, id: &str, extra: Vec<(&str, YamlValue)>, body: &str) -> Document {
    let mut pairs = vec![
        ("api", s("company-as-code.org/v0")),
        ("type", s(ty)),
        ("id", s(id)),
    ];
    pairs.extend(extra);
    doc(file, pairs, body)
}

fn manifest() -> ManifestSource {
    ManifestSource::Parsed(mapping(vec![("api", s("company-as-code.org/v0"))]))
}

fn load(docs: Vec<Document>) -> Workspace {
    load_workspace("/c".to_string(), manifest(), docs)
}

#[test]
fn manifest_findings_come_first_and_name_no_resource() {
    let docs = vec![
        doc("a.md", vec![("api", s("company-as-code.org/v0")), ("id", s("x"))], ""),
        resource("roles/r.md", "team", "r", vec![], ""),
    ];
    let ws = load_workspace("/c".to_string(), ManifestSource::Missing, docs);
    assert_eq!(ws.findings[0].code, "missing-manifest");
    assert_eq!(ws.findings[0].resource, None);
    assert_eq!(ws.findings.len(), 3);
    assert!(ws.findings[1..].iter().all(|f| f.resource.is_some()));
    let ws = load_workspace(
        "/c".to_string(),
        ManifestSource::Parsed(mapping(vec![("api", s("example.org/v1"))])),
        vec![],
    );
    assert_eq!(ws.findings.len(), 1);
    assert_eq!(ws.findings[0].code, "manifest-api");
    assert_eq!(ws.findings[0].field.as_deref(), Some("api"));
    let ws = load_workspace("/c".to_string(), manifest(), vec![]);
    assert!(ws.findings.is_empty());
}

#[test]
fn incomplete_envelopes_are_reported_and_not_resources() {
    let ws = load(vec![
        doc("a.md", vec![("api", s("company-as-code.org/v0")), ("id", s("x"))], ""),
        doc("b.md", vec![("api", s("company-as-code.org/v0")), ("type", s("role"))], ""),
    ]);
    assert!(ws.resources.is_empty());
    assert_eq!(ws.findings.len(), 2);
    assert_eq!(ws.findings[0].code, "missing-type");
    assert_eq!(ws.findings[0].resource.as_deref(), Some("a.md"));
    assert_eq!(ws.findings[0].field.as_deref(), Some("type"));
    assert_eq!(ws.findings[1].code, "missing-id");
    assert_eq!(ws.findings[1].resource.as_deref(), Some("b.md"));
    assert_eq!(ws.findings[1].field.as_deref(), Some("id"));
}

#[test]
fn unknown_types_are_kept_and_only_warned_about() {
    let ws = load(vec![
        resource("t.md", "team", "core", vec![("lead", s("someone"))], ""),
        resource("x.md", "x-team", "core", vec![], ""),
    ]);
    assert_eq!(ws.resources.len(), 2);
    assert_eq!(ws.resources[0].file, "t.md");
    assert_eq!(ws.resources[0].addr(), "team/core");
    assert_eq!(ws.findings.len(), 1);
    assert_eq!(ws.findings[0].code, "unknown-type");
    assert_eq!(ws.findings[0].severity, "warning");
    assert_eq!(ws.findings[0].resource.as_deref(), Some("team/core"));
    assert!(!ws.findings.iter().any(|f| f.resource.as_deref() == Some("x-team/core")));
}

#[test]
fn each_duplicate_after_the_first_is_reported_once() {
    let one = load(vec![resource("a.md", "role", "x", vec![], "")]);
    assert!(one.findings.is_empty());
    let ws = load(vec![
        resource("a.md", "role", "x", vec![], ""),
        resource("b.md", "role", "y", vec![], ""),
        resource("c.md", "role", "x", vec![], ""),
        resource("d.md", "role", "x", vec![], ""),
        resource("e.md", "role", "x", vec![], ""),
    ]);
    assert_eq!(ws.resources.iter().filter(|r| r.addr() == "role/x").count(), 4);
    let msgs: Vec<&str> = ws
        .findings
        .iter()
        .filter(|f| f.code == "duplicate-id" && f.resource.as_deref() == Some("role/x"))
        .map(|f| f.message.as_str())
        .collect();
    assert_eq!(
        msgs,
        vec![
            "'role/x' defined in both a.md and c.md",
            "'role/x' defined in both a.md and d.md",
            "'role/x' defined in both a.md and e.md",
        ]
    );
}

#[test]
fn validation_findings_have_their_shape_and_follow_the_references() {
    let mut ws = load(vec![
        resource("r.md", "role", "r", vec![], "[[role/r]] [[goal/none]]"),
        resource(
            "p.md",
            "process",
            "p",
            vec![
                ("executed_by", s("role/r")),
                ("serves", list(vec![s("goal/none"), YamlValue::Int(3), s("Bad"), s("role/r")])),
            ],
            "",
        ),
        resource("g.md", "goal", "g", vec![("owner", s("role/r"))], ""),
    ]);
    let before = ws.findings.len();
    validate(&mut ws);
    let new = &ws.findings[before..];
    for f in new {
        assert!(f.level == "L1" || f.level == "L2");
        assert_eq!(f.severity == "warning", f.code == "unresolved-prose-ref");
        assert!(ws.resources.iter().any(|r| Some(r.addr()) == f.resource));
    }
    let serves: Vec<(String, Option<String>)> = new
        .iter()
        .filter(|f| f.field.as_deref() == Some("serves"))
        .map(|f| (f.code.clone(), f.target.clone()))
        .collect();
    assert_eq!(
        serves,
        vec![
            ("unresolved-ref".to_string(), Some("goal/none".to_string())),
            ("invalid-ref".to_string(), None),
            ("invalid-ref".to_string(), Some("Bad".to_string())),
        ]
    );
    assert!(!new.iter().any(|f| f.field.as_deref() == Some("executed_by")));
    let prose: Vec<Option<String>> = new
        .iter()
        .filter(|f| f.code == "unresolved-prose-ref")
        .map(|f| f.target.clone())
        .collect();
    assert_eq!(prose, vec![Some("goal/none".to_string())]);
    let missing: Vec<Option<String>> = new
        .iter()
        .filter(|f| f.code == "missing-required-field")
        .map(|f| f.resource.clone())
        .collect();
    assert_eq!(missing, vec![Some("process/p".to_string())]);
}

#[test]
fn a_rendered_plan_has_a_line_per_entry_and_a_summary() {
    let mut b = load(vec![
        resource("a.md", "role", "a", vec![], ""),
        resource("g.md", "goal", "g", vec![("owner", s("role/a"))], ""),
    ]);
    validate(&mut b);
    let mut c = load(vec![
        resource("g.md", "goal", "g", vec![("owner", s("role/a"))], "changed"),
        resource("n.md", "role", "n", vec![], ""),
        resource("m.md", "role", "m", vec![], ""),
    ]);
    validate(&mut c);
    let p = plan_between("HEAD", &b, &c);
    let text = render(&p);
    let entries = p.added.len() + p.changed.len() + p.removed.len() + p.impacts.len();
    assert_eq!(entries, 5);
    assert!(text.ends_with('\n'));
    assert_eq!(text.lines().count(), entries + 1);
    assert!(text.lines().last().unwrap().starts_with("2 added · "));
}

#[test]
fn prose_links_stand_in_the_body_in_order() {
    let body = "a [[role/x]] b [[x]] [[goal/y]] [[role/x]]";
    let links = scan_prose_refs(body);
    assert_eq!(links, vec!["role/x", "goal/y", "role/x"]);
    let mut from = 0;
    for l in &links {
        let w = format!("[[{l}]]");
        let at = body[from..].find(&w).expect("link in body") + from;
        assert!(!l.contains("]]"));
        from = at + w.len();
    }
}

#[test]
fn more_references_make_no_new_orphans() {
    let few = vec![
        resource("a.md", "role", "a", vec![], ""),
        resource("g.md", "goal", "g", vec![], ""),
    ];
    let more = vec![
        resource("a.md", "role", "a", vec![], ""),
        resource("g.md", "goal", "g", vec![("owner", s("role/a"))], ""),
    ];
    let g1 = graph(&load(few));
    let g2 = graph(&load(more));
    let o1 = orphans(&g1);
    let o2 = orphans(&g2);
    assert_eq!(o1, vec!["role/a".to_string(), "goal/g".to_string()]);
    assert_eq!(o2, vec!["goal/g".to_string()]);
    assert!(o2.iter().all(|o| o1.contains(o)));
    assert_eq!(backlinks(&g2, "role/a").len(), 1);
}

#[test]
fn orphans_after_more_references_keep_their_order() {
    let few = vec![
        resource("a.md", "role", "a", vec![], ""),
        resource("b.md", "role", "b", vec![], ""),
        resource("c.md", "role", "c", vec![], ""),
        resource("g.md", "goal", "g", vec![], ""),
    ];
    let more = vec![
        resource("a.md", "role", "a", vec![], ""),
        resource("b.md", "role", "b", vec![], ""),
        resource("c.md", "role", "c", vec![], ""),
        resource("g.md", "goal", "g", vec![("owner", s("role/b"))], ""),
    ];
    let o1 = orphans(&graph(&load(few)));
    let o2 = orphans(&graph(&load(more)));
    assert_eq!(o1, vec!["role/a", "role/b", "role/c", "goal/g"]);
    assert_eq!(o2, vec!["role/a", "role/c", "goal/g"]);
    let mut it = o1.iter();
    assert!(o2.iter().all(|x| it.any(|y| y == x)));
}

#[test]
fn validation_per_address_with_a_shared_address() {
    let mut ws = load(vec![
        resource("g1.md", "goal", "g", vec![("owner", s("role/none"))], "[[role/ghost]]"),
        resource("g2.md", "goal", "g", vec![], ""),
    ]);
    validate(&mut ws);
    let at = |code: &str| {
        ws.findings
            .iter()
            .filter(|f| f.code == code && f.resource.as_deref() == Some("goal/g"))
            .count()
    };
    assert_eq!(at("missing-required-field"), 1);
    assert_eq!(at("unresolved-ref"), 1);
    assert_eq!(at("unresolved-prose-ref"), 1);
    assert_eq!(at("duplicate-id"), 1);
}

#[test]
fn a_missing_type_is_reported_even_with_a_second_file_of_the_same_name() {
    let ws = load(vec![
        doc("a.md", vec![("api", s("company-as-code.org/v0")), ("id", s("x"))], ""),
        resource("a.md", "role", "x", vec![], ""),
    ]);
    assert_eq!(ws.findings[0].code, "missing-type");
    assert_eq!(ws.resources.len(), 1);
}
