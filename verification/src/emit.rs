//! The document emitter: renders a graph document as pretty-printed XML with
//! the declaration line, four-space indentation and `\n` separators, down to
//! the exact character sequence.
use crate::document::{datas_model, doc_model, DocModel, Document};
use crate::strutil::{dec_spec, usize_to_string};
use vstd::prelude::*;
use vstd::string::*;

verus! {

/// Text content escaping: the three characters XML reserves in character
/// data are replaced by their entities.
pub open spec fn escape_char(c: char) -> Seq<char> {
    if c == '&' {
        seq!['&', 'a', 'm', 'p', ';']
    } else if c == '<' {
        seq!['&', 'l', 't', ';']
    } else if c == '>' {
        seq!['&', 'g', 't', ';']
    } else {
        seq![c]
    }
}

pub open spec fn escape_text(s: Seq<char>) -> Seq<char>
    decreases s.len(),
{
    if s.len() == 0 {
        Seq::empty()
    } else {
        escape_text(s.drop_last()) + escape_char(s.last())
    }
}

/// Escapes a string for use as XML character data.
pub fn escape_text_str(s: &str) -> (r: String)
    ensures
        r@ == escape_text(s@),
{
    let len = s.unicode_len();
    let mut r = String::new();
    let mut i: usize = 0;
    while i < len
        invariant
            i <= len,
            len == s@.len(),
            r@ == escape_text(s@.subrange(0, i as int)),
        decreases len - i,
    {
        let c = s.get_char(i);
        if c == '&' {
            r.append("&amp;");
            proof {
                reveal_strlit("&amp;");
            }
        } else if c == '<' {
            r.append("&lt;");
            proof {
                reveal_strlit("&lt;");
            }
        } else if c == '>' {
            r.append("&gt;");
            proof {
                reveal_strlit("&gt;");
            }
        } else {
            r.append(s.substring_char(i, i + 1));
            proof {
                assert(s@.subrange(i as int, i + 1) =~= seq![s@[i as int]]);
            }
        }
        proof {
            assert(s@.subrange(0, i + 1).drop_last() =~= s@.subrange(0, i as int));
            assert(s@.subrange(0, i + 1).last() == s@[i as int]);
            assert(r@ =~= escape_text(s@.subrange(0, i + 1)));
        }
        i += 1;
    }
    proof {
        assert(s@.subrange(0, s@.len() as int) =~= s@);
    }
    r
}

pub open spec fn xml_header() -> Seq<char> {
    "<?xml version=\"1.0\" encoding=\"utf-8\"?>\n"@
}

pub open spec fn graphml_open() -> Seq<char> {
    "<graphml xmlns=\"http://graphml.graphdrawing.org/xmlns\">\n"@
}

/// One `<key>` declaration line: declared for nodes, id equal to the name.
pub open spec fn key_line(k: (Seq<char>, Seq<char>)) -> Seq<char> {
    "    <key attr.name=\""@ + k.0 + "\" attr.type=\""@ + k.1 + "\" for=\"node\" id=\""@ + k.0
        + "\" />\n"@
}

pub open spec fn keys_chars(ks: Seq<(Seq<char>, Seq<char>)>) -> Seq<char>
    decreases ks.len(),
{
    if ks.len() == 0 {
        Seq::empty()
    } else {
        keys_chars(ks.drop_last()) + key_line(ks.last())
    }
}

pub open spec fn graph_open() -> Seq<char> {
    "    <graph edgedefault=\"directed\">\n"@
}

/// One `<data>` line of a node element, its value escaped.
pub open spec fn data_line(d: (Seq<char>, Seq<char>)) -> Seq<char> {
    "            <data key=\""@ + d.0 + "\">"@ + escape_text(d.1) + "</data>\n"@
}

pub open spec fn datas_chars(ds: Seq<(Seq<char>, Seq<char>)>) -> Seq<char>
    decreases ds.len(),
{
    if ds.len() == 0 {
        Seq::empty()
    } else {
        datas_chars(ds.drop_last()) + data_line(ds.last())
    }
}

/// One `<node>` block: its id derived from the index, then its data lines.
pub open spec fn node_block(nd: (nat, Seq<(Seq<char>, Seq<char>)>)) -> Seq<char> {
    "        <node id=\"n"@ + dec_spec(nd.0) + "\">\n"@ + datas_chars(nd.1) + "        </node>\n"@
}

pub open spec fn nodes_chars(ns: Seq<(nat, Seq<(Seq<char>, Seq<char>)>)>) -> Seq<char>
    decreases ns.len(),
{
    if ns.len() == 0 {
        Seq::empty()
    } else {
        nodes_chars(ns.drop_last()) + node_block(ns.last())
    }
}

/// One `<edge>` line, endpoints named like the node ids.
pub open spec fn edge_line(e: (nat, nat)) -> Seq<char> {
    "        <edge source=\"n"@ + dec_spec(e.0) + "\" target=\"n"@ + dec_spec(e.1) + "\" />\n"@
}

pub open spec fn edges_chars(es: Seq<(nat, nat)>) -> Seq<char>
    decreases es.len(),
{
    if es.len() == 0 {
        Seq::empty()
    } else {
        edges_chars(es.drop_last()) + edge_line(es.last())
    }
}

pub open spec fn graph_close() -> Seq<char> {
    "    </graph>\n"@
}

pub open spec fn graphml_close() -> Seq<char> {
    "</graphml>\n"@
}

/// The whole rendered document: declaration, root element, key
/// declarations, then the graph with its nodes and edges.
pub open spec fn render_model(m: DocModel) -> Seq<char> {
    xml_header() + graphml_open() + keys_chars(m.keys) + graph_open() + nodes_chars(m.nodes)
        + edges_chars(m.edges) + graph_close() + graphml_close()
}

fn render_key(out: &mut String, name: &String, ty: &String)
    ensures
        final (out)@ == old(out)@ + key_line((name@, ty@)),
{
    out.append("    <key attr.name=\"");
    out.append(name.as_str());
    out.append("\" attr.type=\"");
    out.append(ty.as_str());
    out.append("\" for=\"node\" id=\"");
    out.append(name.as_str());
    out.append("\" />\n");
    proof {
        assert(out@ =~= old(out)@ + key_line((name@, ty@)));
    }
}

fn render_data(out: &mut String, key: &String, value: &String)
    ensures
        final (out)@ == old(out)@ + data_line((key@, value@)),
{
    out.append("            <data key=\"");
    out.append(key.as_str());
    out.append("\">");
    let esc = escape_text_str(value.as_str());
    out.append(esc.as_str());
    out.append("</data>\n");
    proof {
        assert(out@ =~= old(out)@ + data_line((key@, value@)));
    }
}

/// Renders a document exactly as `render_model` describes it.
pub fn render_document(doc: &Document) -> (r: String)
    ensures
        r@ == render_model(doc_model(*doc)),
{
    let ghost m = doc_model(*doc);
    let mut out = String::from_str("<?xml version=\"1.0\" encoding=\"utf-8\"?>\n");
    out.append("<graphml xmlns=\"http://graphml.graphdrawing.org/xmlns\">\n");
    let ghost head = xml_header() + graphml_open();
    proof {
        assert(out@ =~= head);
    }
    let mut i: usize = 0;
    while i < doc.keys.len()
        invariant
            i <= doc.keys@.len(),
            m == doc_model(*doc),
            head == xml_header() + graphml_open(),
            out@ == head + keys_chars(m.keys.subrange(0, i as int)),
        decreases doc.keys@.len() - i,
    {
        let k = &doc.keys[i];
        render_key(&mut out, &k.name, &k.ty);
        proof {
            let sub1 = m.keys.subrange(0, i + 1);
            assert(sub1.drop_last() =~= m.keys.subrange(0, i as int));
            assert(sub1.last() == m.keys[i as int]);
            assert(m.keys[i as int] == (k.name@, k.ty@));
            assert(out@ =~= head + keys_chars(sub1));
        }
        i += 1;
    }
    proof {
        assert(m.keys.subrange(0, m.keys.len() as int) =~= m.keys);
    }
    out.append("    <graph edgedefault=\"directed\">\n");
    let ghost head2 = head + keys_chars(m.keys) + graph_open();
    proof {
        assert(out@ =~= head2);
    }
    let mut i: usize = 0;
    while i < doc.nodes.len()
        invariant
            i <= doc.nodes@.len(),
            m == doc_model(*doc),
            head2 == xml_header() + graphml_open() + keys_chars(m.keys) + graph_open(),
            out@ == head2 + nodes_chars(m.nodes.subrange(0, i as int)),
        decreases doc.nodes@.len() - i,
    {
        let node = &doc.nodes[i];
        let ghost nd = m.nodes[i as int];
        proof {
            assert(nd == (node.id as nat, datas_model(node.data@)));
        }
        out.append("        <node id=\"n");
        let id_str = usize_to_string(node.id);
        out.append(id_str.as_str());
        out.append("\">\n");
        let ghost nhead = out@;
        proof {
            assert(nhead =~= head2 + nodes_chars(m.nodes.subrange(0, i as int))
                + "        <node id=\"n"@ + dec_spec(nd.0) + "\">\n"@);
        }
        let mut q: usize = 0;
        while q < node.data.len()
            invariant
                q <= node.data@.len(),
                nd == (node.id as nat, datas_model(node.data@)),
                out@ == nhead + datas_chars(nd.1.subrange(0, q as int)),
            decreases node.data@.len() - q,
        {
            let d = &node.data[q];
            render_data(&mut out, &d.key, &d.value);
            proof {
                let sub1 = nd.1.subrange(0, q + 1);
                assert(sub1.drop_last() =~= nd.1.subrange(0, q as int));
                assert(sub1.last() == nd.1[q as int]);
                assert(nd.1[q as int] == (d.key@, d.value@));
                assert(out@ =~= nhead + datas_chars(sub1));
            }
            q += 1;
        }
        out.append("        </node>\n");
        proof {
            assert(nd.1.subrange(0, nd.1.len() as int) =~= nd.1);
            let sub1 = m.nodes.subrange(0, i + 1);
            assert(sub1.drop_last() =~= m.nodes.subrange(0, i as int));
            assert(sub1.last() == nd);
            assert(out@ =~= head2 + nodes_chars(sub1));
        }
        i += 1;
    }
    proof {
        assert(m.nodes.subrange(0, m.nodes.len() as int) =~= m.nodes);
    }
    let ghost head3 = head2 + nodes_chars(m.nodes);
    let mut i: usize = 0;
    while i < doc.edges.len()
        invariant
            i <= doc.edges@.len(),
            m == doc_model(*doc),
            head3 == xml_header() + graphml_open() + keys_chars(m.keys) + graph_open()
                + nodes_chars(m.nodes),
            out@ == head3 + edges_chars(m.edges.subrange(0, i as int)),
        decreases doc.edges@.len() - i,
    {
        let e = &doc.edges[i];
        out.append("        <edge source=\"n");
        let s_str = usize_to_string(e.source);
        out.append(s_str.as_str());
        out.append("\" target=\"n");
        let t_str = usize_to_string(e.target);
        out.append(t_str.as_str());
        out.append("\" />\n");
        proof {
            let sub1 = m.edges.subrange(0, i + 1);
            assert(sub1.drop_last() =~= m.edges.subrange(0, i as int));
            assert(sub1.last() == m.edges[i as int]);
            assert(m.edges[i as int] == (e.source as nat, e.target as nat));
            assert(out@ =~= head3 + edges_chars(sub1));
        }
        i += 1;
    }
    proof {
        assert(m.edges.subrange(0, m.edges.len() as int) =~= m.edges);
    }
    out.append("    </graph>\n");
    out.append("</graphml>\n");
    proof {
        assert(out@ =~= render_model(m));
    }
    out
}

} // verus!
