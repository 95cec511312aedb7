use charta::{
    graph, load_workspace, to_dot, to_mermaid, Document, Edge, Graph, ManifestSource, Node,
    YamlEntry, YamlMapping, YamlValue,
};

fn s(v: &str) -> YamlValue {
    YamlValue::Str(v.to_string())
}

fn resource(file: &str, ty: &str, id: &str, extra: Vec<(&str, YamlValue)>, body: &str) -> Document {
    let mut pairs = vec![
        ("api", s("company-as-code.org/v0")),
        ("type", s(ty)),
        ("id", s(id)),
    ];
    pairs.extend(extra);
    Document {
        file: file.to_string(),
        front: String::new(),
        body: body.to_string(),
        parsed: Ok(YamlMapping {
            entries: pairs.into_iter().map(|(k, v)| YamlEntry { key: s(k), value: v }).collect(),
        }),
    }
}

fn company_graph() -> Graph {
    let docs = vec![
        resource("roles/finance.md", "role", "finance", vec![], ""),
        resource("goals/cashflow.md", "goal", "cashflow", vec![("owner", s("role/finance"))], ""),
        resource(
            "processes/invoicing.md",
            "process",
            "invoicing",
            vec![
                ("owner", s("role/finance")),
                ("serves", YamlValue::Sequence(vec![s("goal/cashflow")])),
            ],
            "Exceptions go to [[role/finance]].",
        ),
    ];
    let manifest = ManifestSource::Parsed(YamlMapping {
        entries: vec![YamlEntry { key: s("api"), value: s("company-as-code.org/v0") }],
    });
    graph(&load_workspace("/c".to_string(), manifest, docs))
}

#[test]
fn mermaid_flowchart_of_a_company() {
    assert_eq!(
        to_mermaid(&company_graph()),
        "flowchart LR\n\
         \x20   n0[\"role/finance\"]\n\
         \x20   n1[\"goal/cashflow\"]\n\
         \x20   n2[\"process/invoicing\"]\n\
         \x20   n1 -->|owner| n0\n\
         \x20   n2 -->|owner| n0\n\
         \x20   n2 -->|serves| n1\n\
         \x20   n2 -.->|prose| n0\n"
    );
}

#[test]
fn dot_digraph_of_a_company() {
    assert_eq!(
        to_dot(&company_graph()),
        "digraph company {\n\
         \x20   \"role/finance\";\n\
         \x20   \"goal/cashflow\";\n\
         \x20   \"process/invoicing\";\n\
         \x20   \"goal/cashflow\" -> \"role/finance\" [label=\"owner\"];\n\
         \x20   \"process/invoicing\" -> \"role/finance\" [label=\"owner\"];\n\
         \x20   \"process/invoicing\" -> \"goal/cashflow\" [label=\"serves\"];\n\
         \x20   \"process/invoicing\" -> \"role/finance\" [label=\"prose\", style=dashed];\n\
         }\n"
    );
}

fn odd_graph() -> Graph {
    let node = |t: &str, i: &str| Node {
        node_type: t.to_string(),
        id: i.to_string(),
        title: None,
        file: "x.md".to_string(),
    };
    let edge = |f: &str, fl: &str, t: &str| Edge {
        from: f.to_string(),
        field: fl.to_string(),
        to: t.to_string(),
    };
    Graph {
        nodes: vec![node("x-\"q\"", "a"), node("a|b", "c\\d")],
        edges: vec![edge("x-\"q\"/a", "owner", "a|b/c\\d"), edge("x-\"q\"/a", "owner", "role/none")],
    }
}

#[test]
fn labels_are_escaped_and_dangling_edges_left_out_of_mermaid() {
    assert_eq!(
        to_mermaid(&odd_graph()),
        "flowchart LR\n\
         \x20   n0[\"x-#quot;q#quot;/a\"]\n\
         \x20   n1[\"a#124;b/c\\d\"]\n\
         \x20   n0 -->|owner| n1\n"
    );
    assert_eq!(
        to_dot(&odd_graph()),
        "digraph company {\n\
         \x20   \"x-\\\"q\\\"/a\";\n\
         \x20   \"a|b/c\\\\d\";\n\
         \x20   \"x-\\\"q\\\"/a\" -> \"a|b/c\\\\d\" [label=\"owner\"];\n\
         \x20   \"x-\\\"q\\\"/a\" -> \"role/none\" [label=\"owner\"];\n\
         }\n"
    );
}

#[test]
fn an_empty_graph_renders_its_frame() {
    let g = Graph { nodes: vec![], edges: vec![] };
    assert_eq!(to_mermaid(&g), "flowchart LR\n");
    assert_eq!(to_dot(&g), "digraph company {\n}\n");
}
