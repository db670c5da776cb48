use warnet_cli::document::{
    add_custom_attributes, convert_to_graphml, DataEntry, Document, EdgeElement, KeyDecl,
    NodeElement,
};
use warnet_cli::emit::{escape_text_str, render_document};
use warnet_cli::graph_cmd::build_graph_document;
use warnet_cli::topology::create_graph;
use xmltree::{Element, XMLNode};

fn child_elements<'a>(el: &'a Element) -> Vec<&'a Element> {
    el.children
        .iter()
        .filter_map(|n| match n {
            XMLNode::Element(e) => Some(e),
            _ => None,
        })
        .collect()
}

fn parse(doc: &str) -> Element {
    Element::parse(doc.as_bytes()).expect("emitted document must parse")
}

const KEY_NAMES: [&str; 7] = [
    "version",
    "bitcoin_config",
    "tc_netem",
    "build_args",
    "exporter",
    "collect_logs",
    "image",
];
const KEY_TYPES: [&str; 7] = ["string", "string", "string", "string", "boolean", "boolean", "string"];

#[test]
fn injected_document_declares_schema_and_node_data() {
    let out = build_graph_document(3, None, None).unwrap();
    let root = parse(&out);
    assert_eq!(root.name, "graphml");
    let children = child_elements(&root);
    let keys: Vec<_> = children.iter().filter(|e| e.name == "key").collect();
    assert_eq!(keys.len(), 7);
    for (i, key) in keys.iter().enumerate() {
        assert_eq!(key.attributes.get("attr.name").unwrap(), KEY_NAMES[i]);
        assert_eq!(key.attributes.get("attr.type").unwrap(), KEY_TYPES[i]);
        assert_eq!(key.attributes.get("for").unwrap(), "node");
        assert_eq!(key.attributes.get("id").unwrap(), KEY_NAMES[i]);
    }
    let graphs: Vec<_> = children.iter().filter(|e| e.name == "graph").collect();
    assert_eq!(graphs.len(), 1);
    let nodes: Vec<_> = child_elements(graphs[0])
        .into_iter()
        .filter(|e| e.name == "node")
        .collect();
    assert_eq!(nodes.len(), 3);
    for node in &nodes {
        let data: Vec<_> = child_elements(node)
            .into_iter()
            .filter(|e| e.name == "data")
            .collect();
        assert_eq!(data.len(), 7);
        for (i, d) in data.iter().enumerate() {
            assert_eq!(d.attributes.get("key").unwrap(), KEY_NAMES[i]);
        }
    }
}

#[test]
fn default_values_for_three_nodes() {
    let out = build_graph_document(3, None, None).unwrap();
    let root = parse(&out);
    let graph = child_elements(&root)
        .into_iter()
        .find(|e| e.name == "graph")
        .unwrap();
    for node in child_elements(graph).into_iter().filter(|e| e.name == "node") {
        let data: Vec<_> = child_elements(node)
            .into_iter()
            .filter(|e| e.name == "data")
            .collect();
        let text = |i: usize| -> String {
            data[i].get_text().map(|c| c.to_string()).unwrap_or_default()
        };
        assert_eq!(text(0), "26.0");
        assert_eq!(text(1), "");
        assert_eq!(text(2), "");
        assert_eq!(text(3), "");
        assert_eq!(text(4), "false");
        assert_eq!(text(5), "false");
        assert_eq!(text(6), "");
    }
}

#[test]
fn empty_graph_document_is_well_formed() {
    let out = build_graph_document(0, None, None).unwrap();
    let root = parse(&out);
    let children = child_elements(&root);
    assert_eq!(children.iter().filter(|e| e.name == "key").count(), 7);
    let graph = children.iter().find(|e| e.name == "graph").unwrap();
    assert_eq!(child_elements(graph).iter().filter(|e| e.name == "node").count(), 0);
    assert_eq!(child_elements(graph).iter().filter(|e| e.name == "edge").count(), 0);
}

#[test]
fn version_and_config_are_embedded() {
    let version = "27.1".to_string();
    let out = build_graph_document(2, Some(&version), Some("a=1\n[net]\nb=2\n")).unwrap();
    let root = parse(&out);
    let graph = child_elements(&root)
        .into_iter()
        .find(|e| e.name == "graph")
        .unwrap();
    for node in child_elements(graph).into_iter().filter(|e| e.name == "node") {
        let data: Vec<_> = child_elements(node)
            .into_iter()
            .filter(|e| e.name == "data")
            .collect();
        assert_eq!(data[0].get_text().unwrap(), "27.1");
        assert_eq!(data[1].get_text().unwrap(), "a=1,[net],b=2");
    }
}

#[test]
fn bad_config_fails_graph_document() {
    assert!(build_graph_document(2, None, Some("=1\n")).is_err());
}

#[test]
fn reparse_keeps_counts_and_values() {
    let version = "a&b<c>d".to_string();
    let out = build_graph_document(5, Some(&version), Some("k=v\n[s]\nq=w\n")).unwrap();
    let root = parse(&out);
    let children = child_elements(&root);
    assert_eq!(children.iter().filter(|e| e.name == "key").count(), 7);
    let graph = children.iter().find(|e| e.name == "graph").unwrap();
    let nodes: Vec<_> = child_elements(graph)
        .into_iter()
        .filter(|e| e.name == "node")
        .collect();
    let edges: Vec<_> = child_elements(graph)
        .into_iter()
        .filter(|e| e.name == "edge")
        .collect();
    assert_eq!(nodes.len(), 5);
    assert_eq!(edges.len(), 5 * 4);
    for (i, node) in nodes.iter().enumerate() {
        assert_eq!(node.attributes.get("id").unwrap(), &format!("n{}", i));
        let data: Vec<_> = child_elements(node)
            .into_iter()
            .filter(|e| e.name == "data")
            .collect();
        assert_eq!(data[0].get_text().unwrap(), "a&b<c>d");
        assert_eq!(data[1].get_text().unwrap(), "k=v,[s],q=w");
    }
    for edge in &edges {
        let s = edge.attributes.get("source").unwrap();
        let t = edge.attributes.get("target").unwrap();
        assert!(s.starts_with('n') && t.starts_with('n'));
        assert_ne!(s, t);
    }
}

#[test]
fn codec_and_injector_build_expected_document() {
    let g = create_graph(4);
    let doc = convert_to_graphml(&g);
    assert_eq!(doc.keys.len(), 0);
    assert_eq!(doc.nodes.len(), 4);
    for (i, n) in doc.nodes.iter().enumerate() {
        assert_eq!(n.id, i);
        assert_eq!(n.data.len(), 0);
    }
    assert_eq!(doc.edges.len(), 4 * 3);
    let doc = add_custom_attributes(doc, "26.0", "");
    assert_eq!(doc.keys.len(), 7);
    for n in &doc.nodes {
        assert_eq!(n.data.len(), 7);
        assert_eq!(n.data[0].key, "version");
        assert_eq!(n.data[0].value, "26.0");
    }
}

#[test]
fn render_exact_small_document() {
    let doc = Document {
        keys: vec![KeyDecl { name: "version".to_string(), ty: "string".to_string() }],
        nodes: vec![NodeElement {
            id: 0,
            data: vec![DataEntry { key: "version".to_string(), value: "2<6".to_string() }],
        }],
        edges: vec![EdgeElement { source: 0, target: 1 }],
    };
    let out = render_document(&doc);
    let mut expected = String::new();
    expected.push_str("<?xml version=\"1.0\" encoding=\"utf-8\"?>\n");
    expected.push_str("<graphml xmlns=\"http://graphml.graphdrawing.org/xmlns\">\n");
    expected.push_str(
        "    <key attr.name=\"version\" attr.type=\"string\" for=\"node\" id=\"version\" />\n",
    );
    expected.push_str("    <graph edgedefault=\"directed\">\n");
    expected.push_str("        <node id=\"n0\">\n");
    expected.push_str("            <data key=\"version\">2&lt;6</data>\n");
    expected.push_str("        </node>\n");
    expected.push_str("        <edge source=\"n0\" target=\"n1\" />\n");
    expected.push_str("    </graph>\n");
    expected.push_str("</graphml>\n");
    assert_eq!(out, expected);
}

#[test]
fn text_escaping_covers_reserved_characters() {
    assert_eq!(escape_text_str("a&b<c>d\"e'f"), "a&amp;b&lt;c&gt;d\"e'f");
    assert_eq!(escape_text_str(""), "");
    assert_eq!(escape_text_str("plain"), "plain");
}
