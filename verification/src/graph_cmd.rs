//! The create-graph operation: the compute chain from a node count, an
//! optional version string and an optional configuration text to the final
//! rendered XML document. Writing the result to a file or to standard output
//! is the caller's business.
use crate::config::{flatten_spec, handle_bitcoin_conf, ini_model_of};
use crate::document::{add_custom_attributes, codec_model, convert_to_graphml, inject_model};
use crate::emit::{render_document, render_model};
use crate::topology::{create_graph, generated_topology, graph_edges};
use vstd::prelude::*;
use vstd::string::*;

verus! {

/// The graph subcommand: create a ring-plus-random topology of `number`
/// nodes and emit it as an annotated graph document.
pub enum GraphCommand {
    Create {
        number: usize,
        outfile: Option<String>,
        version: Option<String>,
        bitcoin_conf: Option<String>,
    },
}

/// The version string a node is annotated with: the supplied one, or the
/// literal default.
pub open spec fn version_or_default(version: Option<&String>) -> Seq<char> {
    match version {
        Some(v) => v@,
        None => "26.0"@,
    }
}

/// The flattened configuration the document embeds: empty without a
/// configuration text, else the flattening of what the text parses to.
pub open spec fn flat_of(conf_text: Option<&str>) -> Seq<char> {
    match conf_text {
        None => Seq::empty(),
        Some(t) => flatten_spec(ini_model_of(t@).unwrap()),
    }
}

/// Builds the annotated graph document for `number` nodes: some generated
/// topology, rendered and injected with the version and configuration
/// values. Fails exactly when a configuration text is given and does not
/// parse.
pub fn build_graph_document(
    number: usize,
    version: Option<&String>,
    conf_text: Option<&str>,
) -> (r: Result<String, String>)
    requires
        number <= 0x0FFF_FFFF,
    ensures
        match r {
            Ok(out) => (match conf_text {
                Some(t) => ini_model_of(t@) is Some,
                None => true,
            }) && exists|edges: Seq<(nat, nat)>|
                #[trigger] generated_topology(edges, number as nat) && out@ == render_model(
                    inject_model(
                        codec_model(number as nat, edges),
                        version_or_default(version),
                        flat_of(conf_text),
                    ),
                ),
            Err(_) => conf_text matches Some(t) && ini_model_of(t@) is None,
        },
{
    let conf = match handle_bitcoin_conf(conf_text) {
        Ok(s) => s,
        Err(e) => {
            return Err(e);
        },
    };
    let graph = create_graph(number);
    let version_str: &str = match version {
        Some(v) => v.as_str(),
        None => "26.0",
    };
    let doc = convert_to_graphml(&graph);
    let doc = add_custom_attributes(doc, version_str, conf.as_str());
    let out = render_document(&doc);
    proof {
        let edges = graph_edges(graph);
        assert(generated_topology(edges, number as nat));
        assert(version_str@ == version_or_default(version));
        assert(conf@ == flat_of(conf_text));
        assert(out@ == render_model(
            inject_model(
                codec_model(number as nat, edges),
                version_or_default(version),
                flat_of(conf_text),
            ),
        ));
    }
    Ok(out)
}

} // verus!
