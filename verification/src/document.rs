//! The graph document: a typed image of the GraphML-subset tree that is the
//! data contract with the orchestration server. The codec turns a graph into
//! a bare document; the injector declares the fixed per-node attribute schema
//! and gives every node its data values.
use crate::topology::{edge_list, graph_edges, graph_nodes, node_count};
use vstd::prelude::*;
use vstd::string::*;

verus! {

/// One `<data key="...">value</data>` item of a node element.
pub struct DataEntry {
    pub key: String,
    pub value: String,
}

/// One `<node>` element: its index and its data items.
pub struct NodeElement {
    pub id: usize,
    pub data: Vec<DataEntry>,
}

/// One `<edge>` element, by node indices.
pub struct EdgeElement {
    pub source: usize,
    pub target: usize,
}

/// One `<key>` declaration: attribute name and type. Every declaration is
/// for nodes, and its id equals the attribute name.
pub struct KeyDecl {
    pub name: String,
    pub ty: String,
}

/// The whole document: key declarations first, then one graph holding the
/// node elements and the edge elements.
pub struct Document {
    pub keys: Vec<KeyDecl>,
    pub nodes: Vec<NodeElement>,
    pub edges: Vec<EdgeElement>,
}

/// The mathematical image of a document.
#[verifier::ext_equal]
pub ghost struct DocModel {
    pub keys: Seq<(Seq<char>, Seq<char>)>,
    pub nodes: Seq<(nat, Seq<(Seq<char>, Seq<char>)>)>,
    pub edges: Seq<(nat, nat)>,
}

pub open spec fn data_model(d: DataEntry) -> (Seq<char>, Seq<char>) {
    (d.key@, d.value@)
}

pub open spec fn datas_model(ds: Seq<DataEntry>) -> Seq<(Seq<char>, Seq<char>)> {
    ds.map_values(|d: DataEntry| data_model(d))
}

pub open spec fn node_model(n: NodeElement) -> (nat, Seq<(Seq<char>, Seq<char>)>) {
    (n.id as nat, datas_model(n.data@))
}

pub open spec fn nodes_model(ns: Seq<NodeElement>) -> Seq<(nat, Seq<(Seq<char>, Seq<char>)>)> {
    ns.map_values(|n: NodeElement| node_model(n))
}

pub open spec fn edge_model(e: EdgeElement) -> (nat, nat) {
    (e.source as nat, e.target as nat)
}

pub open spec fn edges_model(es: Seq<EdgeElement>) -> Seq<(nat, nat)> {
    es.map_values(|e: EdgeElement| edge_model(e))
}

pub open spec fn key_model(k: KeyDecl) -> (Seq<char>, Seq<char>) {
    (k.name@, k.ty@)
}

pub open spec fn keys_model(ks: Seq<KeyDecl>) -> Seq<(Seq<char>, Seq<char>)> {
    ks.map_values(|k: KeyDecl| key_model(k))
}

pub open spec fn doc_model(d: Document) -> DocModel {
    DocModel {
        keys: keys_model(d.keys@),
        nodes: nodes_model(d.nodes@),
        edges: edges_model(d.edges@),
    }
}

/// The bare node elements of a graph of `n` nodes: indices in order, no
/// data.
pub open spec fn bare_nodes(n: nat) -> Seq<(nat, Seq<(Seq<char>, Seq<char>)>)> {
    Seq::new(n, |i: int| (i as nat, Seq::<(Seq<char>, Seq<char>)>::empty()))
}

/// The generic document the codec produces for a graph: no key declaration,
/// one bare node element per node in index order, one edge element per edge
/// in insertion order.
pub open spec fn codec_model(n: nat, edges: Seq<(nat, nat)>) -> DocModel {
    DocModel { keys: Seq::empty(), nodes: bare_nodes(n), edges: edges }
}

/// Renders the abstract graph into the generic graph document.
pub fn convert_to_graphml(graph: &petgraph::graph::DiGraph<(), ()>) -> (d: Document)
    ensures
        doc_model(d) == codec_model(graph_nodes(*graph), graph_edges(*graph)),
{
    let n = node_count(graph);
    let el = edge_list(graph);
    let mut nodes: Vec<NodeElement> = Vec::new();
    let mut i: usize = 0;
    while i < n
        invariant
            i <= n,
            n == graph_nodes(*graph),
            nodes_model(nodes@) == bare_nodes(n as nat).subrange(0, i as int),
        decreases n - i,
    {
        let ghost oldnodes = nodes@;
        nodes.push(NodeElement { id: i, data: Vec::new() });
        proof {
            assert(nodes_model(oldnodes).len() == oldnodes.len());
            assert(bare_nodes(n as nat).subrange(0, i as int).len() == i);
            let lhs = nodes_model(nodes@);
            let rhs = bare_nodes(n as nat).subrange(0, i + 1);
            assert forall|q: int| 0 <= q < lhs.len() implies lhs[q] == rhs[q] by {
                assert(lhs[q] == node_model(nodes@[q]));
                assert(rhs[q] == bare_nodes(n as nat)[q]);
                if q < i {
                    assert(nodes@[q] == oldnodes[q]);
                    assert(nodes_model(oldnodes)[q] == node_model(oldnodes[q]));
                    assert(bare_nodes(n as nat).subrange(0, i as int)[q] == bare_nodes(
                        n as nat,
                    )[q]);
                } else {
                    assert(datas_model(Seq::<DataEntry>::empty()) =~= Seq::<
                        (Seq<char>, Seq<char>),
                    >::empty());
                }
            }
            assert(lhs =~= rhs);
        }
        i += 1;
    }
    proof {
        assert(bare_nodes(n as nat).subrange(0, n as int) =~= bare_nodes(n as nat));
    }
    let mut edges: Vec<EdgeElement> = Vec::new();
    let mut k: usize = 0;
    while k < el.len()
        invariant
            k <= el@.len(),
            el@.len() == graph_edges(*graph).len(),
            forall|q: int|
                0 <= q < el@.len() ==> el@[q].0 == graph_edges(*graph)[q].0 && el@[q].1
                    == graph_edges(*graph)[q].1,
            edges_model(edges@) == graph_edges(*graph).subrange(0, k as int),
        decreases el@.len() - k,
    {
        let ghost oldedges = edges@;
        let e = el[k];
        edges.push(EdgeElement { source: e.0, target: e.1 });
        proof {
            assert(edges_model(oldedges).len() == oldedges.len());
            assert(graph_edges(*graph).subrange(0, k as int).len() == k);
            let lhs = edges_model(edges@);
            let rhs = graph_edges(*graph).subrange(0, k + 1);
            assert forall|q: int| 0 <= q < lhs.len() implies lhs[q] == rhs[q] by {
                assert(lhs[q] == edge_model(edges@[q]));
                if q < k {
                    assert(edges@[q] == oldedges[q]);
                    assert(edges_model(oldedges)[q] == edge_model(oldedges[q]));
                    assert(graph_edges(*graph).subrange(0, k as int)[q] == graph_edges(*graph)[q]);
                }
                assert(graph_edges(*graph).subrange(0, k + 1)[q] == graph_edges(*graph)[q]);
            }
            assert(lhs =~= rhs);
        }
        k += 1;
    }
    proof {
        let all = graph_edges(*graph);
        assert(all.subrange(0, all.len() as int) =~= all);
    }
    let d = Document { keys: Vec::new(), nodes, edges };
    proof {
        assert(keys_model(Seq::<KeyDecl>::empty()) =~= Seq::<(Seq<char>, Seq<char>)>::empty());
        assert(doc_model(d) =~~= codec_model(graph_nodes(*graph), graph_edges(*graph)));
    }
    d
}

/// The seven node attribute names, in declaration order.
pub open spec fn attr_names() -> Seq<Seq<char>> {
    seq![
        "version"@,
        "bitcoin_config"@,
        "tc_netem"@,
        "build_args"@,
        "exporter"@,
        "collect_logs"@,
        "image"@,
    ]
}

/// The declared attribute types, matching `attr_names`.
pub open spec fn attr_types() -> Seq<Seq<char>> {
    seq!["string"@, "string"@, "string"@, "string"@, "boolean"@, "boolean"@, "string"@]
}

/// The data values every node receives, matching `attr_names`: the version
/// string, the flattened configuration, and fixed defaults.
pub open spec fn attr_values(version: Seq<char>, conf: Seq<char>) -> Seq<Seq<char>> {
    seq![
        version,
        conf,
        Seq::<char>::empty(),
        Seq::<char>::empty(),
        "false"@,
        "false"@,
        Seq::<char>::empty(),
    ]
}

/// The seven key declarations the injector adds.
pub open spec fn injected_keys() -> Seq<(Seq<char>, Seq<char>)> {
    Seq::new(7, |q: int| (attr_names()[q], attr_types()[q]))
}

/// The seven data items every node receives.
pub open spec fn injected_data(version: Seq<char>, conf: Seq<char>) -> Seq<
    (Seq<char>, Seq<char>),
> {
    Seq::new(7, |q: int| (attr_names()[q], attr_values(version, conf)[q]))
}

pub open spec fn inject_node(
    nd: (nat, Seq<(Seq<char>, Seq<char>)>),
    version: Seq<char>,
    conf: Seq<char>,
) -> (nat, Seq<(Seq<char>, Seq<char>)>) {
    (nd.0, nd.1 + injected_data(version, conf))
}

pub open spec fn injected_nodes(
    ns: Seq<(nat, Seq<(Seq<char>, Seq<char>)>)>,
    version: Seq<char>,
    conf: Seq<char>,
) -> Seq<(nat, Seq<(Seq<char>, Seq<char>)>)> {
    ns.map_values(|nd: (nat, Seq<(Seq<char>, Seq<char>)>)| inject_node(nd, version, conf))
}

/// What the injector does to a document: the seven key declarations are
/// appended ahead of the graph, every node element gains the seven data
/// items in order, and the edges stay untouched.
pub open spec fn inject_model(m: DocModel, version: Seq<char>, conf: Seq<char>) -> DocModel {
    DocModel {
        keys: m.keys + injected_keys(),
        nodes: injected_nodes(m.nodes, version, conf),
        edges: m.edges,
    }
}

/// Law: the injected form of the codec's document for a graph of `n` nodes
/// declares exactly the seven keys with their names and types, holds exactly
/// `n` node elements with ids equal to their indices, and every node element
/// carries exactly the seven data items, keyed like the declarations and
/// valued as `attr_values` says; the edges pass through untouched.
pub proof fn lemma_injected_document_shape(
    n: nat,
    edges: Seq<(nat, nat)>,
    version: Seq<char>,
    conf: Seq<char>,
)
    ensures
        ({
            let m = inject_model(codec_model(n, edges), version, conf);
            &&& m.keys.len() == 7
            &&& forall|q: int|
                0 <= q < 7 ==> #[trigger] m.keys[q] == (attr_names()[q], attr_types()[q])
            &&& m.nodes.len() == n
            &&& forall|i: int|
                0 <= i < n ==> (#[trigger] m.nodes[i]).0 == i && m.nodes[i].1.len() == 7
            &&& forall|i: int, q: int|
                0 <= i < n && 0 <= q < 7 ==> #[trigger] m.nodes[i].1[q] == (
                attr_names()[q],
                attr_values(version, conf)[q],
                )
            &&& m.edges == edges
        }),
{
    let m = inject_model(codec_model(n, edges), version, conf);
    assert(m.keys =~= injected_keys());
    assert forall|i: int| 0 <= i < n implies (#[trigger] m.nodes[i]).0 == i && m.nodes[i].1.len()
        == 7 by {
        assert(m.nodes[i] == inject_node(bare_nodes(n)[i], version, conf));
        assert(m.nodes[i].1 =~= injected_data(version, conf));
    }
    assert forall|i: int, q: int| 0 <= i < n && 0 <= q < 7 implies #[trigger] m.nodes[i].1[q] == (
        attr_names()[q],
        attr_values(version, conf)[q],
    ) by {
        assert(m.nodes[i] == inject_node(bare_nodes(n)[i], version, conf));
        assert(m.nodes[i].1 =~= injected_data(version, conf));
        assert(injected_data(version, conf)[q] == (attr_names()[q], attr_values(version, conf)[q]));
    }
}

fn push_key(keys: &mut Vec<KeyDecl>, name: &str, ty: &str)
    ensures
        keys_model(final (keys)@) == keys_model(old(keys)@).push((name@, ty@)),
{
    let ghost oldkeys = old(keys)@;
    keys.push(KeyDecl { name: String::from_str(name), ty: String::from_str(ty) });
    proof {
        let lhs = keys_model(keys@);
        let rhs = keys_model(oldkeys).push((name@, ty@));
        assert(keys_model(oldkeys).len() == oldkeys.len());
        assert forall|q: int| 0 <= q < lhs.len() implies lhs[q] == rhs[q] by {
            assert(lhs[q] == key_model(keys@[q]));
            if q < oldkeys.len() {
                assert(keys@[q] == oldkeys[q]);
                assert(keys_model(oldkeys)[q] == key_model(oldkeys[q]));
            }
        }
        assert(lhs =~= rhs);
    }
}

fn push_data(data: &mut Vec<DataEntry>, key: &str, value: &str)
    ensures
        datas_model(final (data)@) == datas_model(old(data)@).push((key@, value@)),
{
    let ghost olddata = old(data)@;
    data.push(DataEntry { key: String::from_str(key), value: String::from_str(value) });
    proof {
        let lhs = datas_model(data@);
        let rhs = datas_model(olddata).push((key@, value@));
        assert(datas_model(olddata).len() == olddata.len());
        assert forall|q: int| 0 <= q < lhs.len() implies lhs[q] == rhs[q] by {
            assert(lhs[q] == data_model(data@[q]));
            if q < olddata.len() {
                assert(data@[q] == olddata[q]);
                assert(datas_model(olddata)[q] == data_model(olddata[q]));
            }
        }
        assert(lhs =~= rhs);
    }
}

/// Declares the seven-attribute schema and appends, to every node element,
/// the seven data values: the version string, the flattened configuration,
/// and the fixed defaults (empty strings and `false` flags).
pub fn add_custom_attributes(doc: Document, version_str: &str, bitcoin_conf: &str) -> (r: Document)
    ensures
        doc_model(r) == inject_model(doc_model(doc), version_str@, bitcoin_conf@),
{
    let ghost m0 = doc_model(doc);
    let mut keys = doc.keys;
    let mut nodes = doc.nodes;
    let edges = doc.edges;
    push_key(&mut keys, "version", "string");
    push_key(&mut keys, "bitcoin_config", "string");
    push_key(&mut keys, "tc_netem", "string");
    push_key(&mut keys, "build_args", "string");
    push_key(&mut keys, "exporter", "boolean");
    push_key(&mut keys, "collect_logs", "boolean");
    push_key(&mut keys, "image", "string");
    proof {
        assert(keys_model(keys@) =~~= m0.keys + injected_keys());
    }
    let ghost orig = m0.nodes;
    let ghost vv = version_str@;
    let ghost cv = bitcoin_conf@;
    let n = nodes.len();
    let mut i: usize = 0;
    while i < n
        invariant
            i <= n,
            nodes@.len() == n,
            orig.len() == n,
            vv == version_str@,
            cv == bitcoin_conf@,
            nodes_model(nodes@) == orig.subrange(i as int, n as int) + injected_nodes(
                orig.subrange(0, i as int),
                vv,
                cv,
            ),
        decreases n - i,
    {
        let ghost pre = nodes@;
        let node = nodes.remove(0);
        proof {
            assert(node_model(node) == nodes_model(pre)[0]);
            assert(nodes_model(pre)[0] == orig[i as int]);
        }
        let id = node.id;
        let mut data = node.data;
        let ghost base = datas_model(data@);
        push_data(&mut data, "version", version_str);
        push_data(&mut data, "bitcoin_config", bitcoin_conf);
        push_data(&mut data, "tc_netem", "");
        push_data(&mut data, "build_args", "");
        push_data(&mut data, "exporter", "false");
        push_data(&mut data, "collect_logs", "false");
        push_data(&mut data, "image", "");
        let node = NodeElement { id, data };
        proof {
            reveal_strlit("");
            assert(""@ =~= Seq::<char>::empty());
            let inj = injected_data(vv, cv);
            assert(inj.len() == 7);
            assert(inj[0] == ("version"@, vv));
            assert(inj[1] == ("bitcoin_config"@, cv));
            assert(inj[2] == ("tc_netem"@, Seq::<char>::empty()));
            assert(inj[3] == ("build_args"@, Seq::<char>::empty()));
            assert(inj[4] == ("exporter"@, "false"@));
            assert(inj[5] == ("collect_logs"@, "false"@));
            assert(inj[6] == ("image"@, Seq::<char>::empty()));
            let b = base.push(inj[0]).push(inj[1]).push(inj[2]).push(inj[3]).push(inj[4]).push(
                inj[5],
            ).push(inj[6]);
            assert(datas_model(node.data@) == b);
            assert(b.len() == base.len() + 7);
            assert forall|q: int| 0 <= q < b.len() implies b[q] == (base + inj)[q] by {
                if q < base.len() {
                    assert(b[q] == base[q]);
                } else {
                    assert(b[q] == inj[q - base.len()]);
                }
            }
            assert(datas_model(node.data@) =~~= base + inj);
            assert(node_model(node) =~~= inject_node(orig[i as int], vv, cv));
        }
        nodes.push(node);
        proof {
            let lhs = nodes_model(nodes@);
            let rhs = orig.subrange(i + 1, n as int) + injected_nodes(
                orig.subrange(0, i + 1),
                vv,
                cv,
            );
            assert(nodes@.len() == n);
            assert forall|q: int| 0 <= q < lhs.len() implies lhs[q] == rhs[q] by {
                assert(lhs[q] == node_model(nodes@[q]));
                if q < n - 1 {
                    assert(nodes@[q] == pre.remove(0)[q]);
                    assert(pre.remove(0)[q] == pre[q + 1]);
                    assert(nodes_model(pre)[q + 1] == node_model(pre[q + 1]));
                    if q + 1 < n - i {
                        assert(rhs[q] == orig.subrange(i + 1, n as int)[q]);
                        assert(nodes_model(pre)[q + 1] == orig.subrange(i as int, n as int)[q
                            + 1]);
                    } else {
                        let p = q + 1 - (n - i);
                        assert(nodes_model(pre)[q + 1] == injected_nodes(
                            orig.subrange(0, i as int),
                            vv,
                            cv,
                        )[p]);
                        assert(injected_nodes(orig.subrange(0, i as int), vv, cv)[p]
                            == inject_node(orig.subrange(0, i as int)[p], vv, cv));
                        assert(rhs[q] == injected_nodes(orig.subrange(0, i + 1), vv, cv)[q - (n - i
                            - 1)]);
                        assert(injected_nodes(orig.subrange(0, i + 1), vv, cv)[p] == inject_node(
                            orig.subrange(0, i + 1)[p],
                            vv,
                            cv,
                        ));
                        assert(orig.subrange(0, i + 1)[p] == orig[p]);
                        assert(orig.subrange(0, i as int)[p] == orig[p]);
                    }
                } else {
                    assert(nodes@[q] == node);
                    assert(rhs[q] == injected_nodes(orig.subrange(0, i + 1), vv, cv)[i as int]);
                    assert(injected_nodes(orig.subrange(0, i + 1), vv, cv)[i as int]
                        == inject_node(orig.subrange(0, i + 1)[i as int], vv, cv));
                    assert(orig.subrange(0, i + 1)[i as int] == orig[i as int]);
                }
            }
            assert(lhs =~= rhs);
        }
        i += 1;
    }
    let r = Document { keys, nodes, edges };
    proof {
        assert(orig.subrange(0, n as int) =~= orig);
        assert(orig.subrange(n as int, n as int) =~= Seq::<
            (nat, Seq<(Seq<char>, Seq<char>)>),
        >::empty());
        assert(nodes_model(r.nodes@) =~~= injected_nodes(orig, vv, cv));
        assert(doc_model(r) =~~= inject_model(m0, vv, cv));
    }
    r
}

} // verus!
