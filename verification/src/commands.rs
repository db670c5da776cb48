//! The command surface and the requests it maps to: every thin command
//! becomes a method name plus plain parameters, which the caller sends over
//! its RPC channel.
use crate::strutil::views_of;
use vstd::prelude::*;
use vstd::string::*;

verus! {

/// Debug subcommands of the earlier command set.
pub enum DebugCommands {
    GenerateCompose { graph_file: String },
}

/// Network subcommands of the earlier command set.
pub enum NetworkCommands {
    Start { graph_file: String, force: bool },
    Up {},
    Down {},
    Info {},
    Status {},
    Connected {},
    Export {},
}

/// Debug subcommands.
pub enum DebugCommand {
    GenerateCompose { graph_file_path: String },
}

/// Which node-level command-line tool a call addresses.
pub enum NodeType {
    LnCli,
    BitcoinCli,
}

/// Network subcommands.
pub enum NetworkCommand {
    Start { graph_file: String, force: bool },
    Up {},
    Down {},
    Info {},
    Status {},
    Connected {},
    Export {},
}

/// Scenario subcommands.
pub enum ScenarioCommand {
    Available {},
    Run { scenario: String, additional_args: Vec<String> },
    RunFile { scenario_path: String, additional_args: Vec<String> },
    Active {},
    Stop { pid: u64 },
}

/// One parameter value of a request: a plain value the transport layer can
/// serialize.
pub enum ParamValue {
    Text(String),
    Flag(bool),
    Number(u64),
    TextList(Vec<String>),
}

/// A request to the orchestration server: the method name and its named
/// parameters.
pub struct RpcRequest {
    pub method: String,
    pub params: Vec<(String, ParamValue)>,
}

pub open spec fn param_is_text(p: (String, ParamValue), key: Seq<char>, val: Seq<char>) -> bool {
    p.0@ == key && (p.1 matches ParamValue::Text(s) && s@ == val)
}

pub open spec fn param_is_flag(p: (String, ParamValue), key: Seq<char>, val: bool) -> bool {
    p.0@ == key && (p.1 matches ParamValue::Flag(b) && b == val)
}

pub open spec fn param_is_number(p: (String, ParamValue), key: Seq<char>, val: u64) -> bool {
    p.0@ == key && (p.1 matches ParamValue::Number(x) && x == val)
}

pub open spec fn param_is_list(p: (String, ParamValue), key: Seq<char>, vals: Seq<Seq<char>>) -> bool {
    p.0@ == key && (p.1 matches ParamValue::TextList(v) && views_of(v@) == vals)
}

/// A name for what the base64 encoder returns: the encoding depends on the
/// bytes alone.
pub uninterp spec fn base64_of(bytes: Seq<u8>) -> Seq<char>;

/// Relies on base64's standard-alphabet engine with padding: four output
/// characters for every three input bytes, rounded up.
#[verifier::external_body]
pub fn encode_base64(bytes: &Vec<u8>) -> (r: String)
    ensures
        r@ == base64_of(bytes@),
        r@.len() == 4 * ((bytes@.len() + 2) / 3),
{
    base64::Engine::encode(&base64::engine::general_purpose::STANDARD, bytes.as_slice())
}

/// Copies a list of strings, keeping every element.
pub fn copy_strings(v: &Vec<String>) -> (r: Vec<String>)
    ensures
        r@ == v@,
{
    let mut r: Vec<String> = Vec::new();
    let mut i: usize = 0;
    while i < v.len()
        invariant
            i <= v@.len(),
            r@ == v@.subrange(0, i as int),
        decreases v@.len() - i,
    {
        r.push(v[i].clone());
        proof {
            assert(r@ =~= v@.subrange(0, i + 1));
        }
        i += 1;
    }
    proof {
        assert(v@.subrange(0, v@.len() as int) =~= v@);
    }
    r
}

/// Maps a network command to its request. `Start` needs the graph file's
/// bytes, which the caller reads; without them it fails.
pub fn network_request(cmd: &NetworkCommand, graph_file: Option<&Vec<u8>>) -> (r: Result<
    RpcRequest,
    String,
>)
    ensures
        match cmd {
            NetworkCommand::Start { force, .. } => match graph_file {
                Some(bytes) => r matches Ok(q) && q.method@ == "network_from_file"@
                    && q.params@.len() == 2 && param_is_text(
                    q.params@[0],
                    "graph_file"@,
                    base64_of(bytes@),
                ) && param_is_flag(q.params@[1], "force"@, *force),
                None => r is Err,
            },
            NetworkCommand::Up { .. } => r matches Ok(q) && q.method@ == "network_up"@
                && q.params@.len() == 0,
            NetworkCommand::Down { .. } => r matches Ok(q) && q.method@ == "network_down"@
                && q.params@.len() == 0,
            NetworkCommand::Info { .. } => r matches Ok(q) && q.method@ == "network_info"@
                && q.params@.len() == 0,
            NetworkCommand::Status { .. } => r matches Ok(q) && q.method@ == "network_status"@
                && q.params@.len() == 0,
            NetworkCommand::Connected { .. } => r matches Ok(q) && q.method@
                == "network_connected"@ && q.params@.len() == 0,
            NetworkCommand::Export { .. } => r matches Ok(q) && q.method@ == "network_export"@
                && q.params@.len() == 0,
        },
{
    match cmd {
        NetworkCommand::Start { force, .. } => match graph_file {
            Some(bytes) => {
                let b64 = encode_base64(bytes);
                let mut params: Vec<(String, ParamValue)> = Vec::new();
                params.push((String::from_str("graph_file"), ParamValue::Text(b64)));
                params.push((String::from_str("force"), ParamValue::Flag(*force)));
                Ok(RpcRequest { method: String::from_str("network_from_file"), params })
            },
            None => Err(String::from_str("missing graph file contents")),
        },
        NetworkCommand::Up { .. } => Ok(
            RpcRequest { method: String::from_str("network_up"), params: Vec::new() },
        ),
        NetworkCommand::Down { .. } => Ok(
            RpcRequest { method: String::from_str("network_down"), params: Vec::new() },
        ),
        NetworkCommand::Info { .. } => Ok(
            RpcRequest { method: String::from_str("network_info"), params: Vec::new() },
        ),
        NetworkCommand::Status { .. } => Ok(
            RpcRequest { method: String::from_str("network_status"), params: Vec::new() },
        ),
        NetworkCommand::Connected { .. } => Ok(
            RpcRequest { method: String::from_str("network_connected"), params: Vec::new() },
        ),
        NetworkCommand::Export { .. } => Ok(
            RpcRequest { method: String::from_str("network_export"), params: Vec::new() },
        ),
    }
}

/// Maps a scenario command to its request. `RunFile` needs the scenario
/// file's bytes, which the caller reads; without them it fails.
pub fn scenario_request(cmd: &ScenarioCommand, scenario_file: Option<&Vec<u8>>) -> (r: Result<
    RpcRequest,
    String,
>)
    ensures
        match cmd {
            ScenarioCommand::Available { .. } => r matches Ok(q) && q.method@
                == "scenarios_available"@ && q.params@.len() == 0,
            ScenarioCommand::Run { scenario, additional_args } => r matches Ok(q) && q.method@
                == "scenarios_run"@ && q.params@.len() == 2 && param_is_text(
                q.params@[0],
                "scenario"@,
                scenario@,
            ) && param_is_list(q.params@[1], "additional_args"@, views_of(additional_args@)),
            ScenarioCommand::RunFile { additional_args, .. } => match scenario_file {
                Some(bytes) => r matches Ok(q) && q.method@ == "scenarios_run_file"@
                    && q.params@.len() == 2 && param_is_text(
                    q.params@[0],
                    "scenario_base64"@,
                    base64_of(bytes@),
                ) && param_is_list(q.params@[1], "additional_args"@, views_of(additional_args@)),
                None => r is Err,
            },
            ScenarioCommand::Active { .. } => r matches Ok(q) && q.method@
                == "scenarios_list_running"@ && q.params@.len() == 0,
            ScenarioCommand::Stop { pid } => r matches Ok(q) && q.method@ == "scenarios_stop"@
                && q.params@.len() == 1 && param_is_number(q.params@[0], "pid"@, *pid),
        },
{
    match cmd {
        ScenarioCommand::Available { .. } => Ok(
            RpcRequest { method: String::from_str("scenarios_available"), params: Vec::new() },
        ),
        ScenarioCommand::Run { scenario, additional_args } => {
            let mut params: Vec<(String, ParamValue)> = Vec::new();
            params.push((String::from_str("scenario"), ParamValue::Text(scenario.clone())));
            params.push(
                (
                    String::from_str("additional_args"),
                    ParamValue::TextList(copy_strings(additional_args)),
                ),
            );
            Ok(RpcRequest { method: String::from_str("scenarios_run"), params })
        },
        ScenarioCommand::RunFile { additional_args, .. } => match scenario_file {
            Some(bytes) => {
                let b64 = encode_base64(bytes);
                let mut params: Vec<(String, ParamValue)> = Vec::new();
                params.push((String::from_str("scenario_base64"), ParamValue::Text(b64)));
                params.push(
                    (
                        String::from_str("additional_args"),
                        ParamValue::TextList(copy_strings(additional_args)),
                    ),
                );
                Ok(RpcRequest { method: String::from_str("scenarios_run_file"), params })
            },
            None => Err(String::from_str("missing scenario file contents")),
        },
        ScenarioCommand::Active { .. } => Ok(
            RpcRequest { method: String::from_str("scenarios_list_running"), params: Vec::new() },
        ),
        ScenarioCommand::Stop { pid } => {
            let mut params: Vec<(String, ParamValue)> = Vec::new();
            params.push((String::from_str("pid"), ParamValue::Number(*pid)));
            Ok(RpcRequest { method: String::from_str("scenarios_stop"), params })
        },
    }
}

/// Maps a node-level tool call to its request: both tools go through the
/// same server method, with the node index, the method name and, if given,
/// its arguments.
pub fn rpc_request(
    node_type: &NodeType,
    node_index: u64,
    method: &String,
    rpc_params: Option<&Vec<String>>,
) -> (r: RpcRequest)
    ensures
        r.method@ == "tank_bcli"@,
        match rpc_params {
            Some(ps) => r.params@.len() == 3 && param_is_number(r.params@[0], "node"@, node_index)
                && param_is_text(r.params@[1], "method"@, method@) && param_is_list(
                r.params@[2],
                "params"@,
                views_of(ps@),
            ),
            None => r.params@.len() == 2 && param_is_number(r.params@[0], "node"@, node_index)
                && param_is_text(r.params@[1], "method"@, method@),
        },
{
    let _ = node_type;
    let mut params: Vec<(String, ParamValue)> = Vec::new();
    params.push((String::from_str("node"), ParamValue::Number(node_index)));
    params.push((String::from_str("method"), ParamValue::Text(method.clone())));
    match rpc_params {
        Some(ps) => {
            params.push((String::from_str("params"), ParamValue::TextList(copy_strings(ps))));
        },
        None => {},
    }
    RpcRequest { method: String::from_str("tank_bcli"), params }
}

/// The request that fetches a node's debug log.
pub fn debug_log_request(node: u64) -> (r: RpcRequest)
    ensures
        r.method@ == "tank_debug_log"@,
        r.params@.len() == 1 && param_is_number(r.params@[0], "node"@, node),
{
    let mut params: Vec<(String, ParamValue)> = Vec::new();
    params.push((String::from_str("node"), ParamValue::Number(node)));
    RpcRequest { method: String::from_str("tank_debug_log"), params }
}

/// The request that fetches the messages exchanged between two nodes.
pub fn messages_request(node_a: u64, node_b: u64) -> (r: RpcRequest)
    ensures
        r.method@ == "tank_messages"@,
        r.params@.len() == 2 && param_is_number(r.params@[0], "node_a"@, node_a) && param_is_number(
            r.params@[1],
            "node_b"@,
            node_b,
        ),
{
    let mut params: Vec<(String, ParamValue)> = Vec::new();
    params.push((String::from_str("node_a"), ParamValue::Number(node_a)));
    params.push((String::from_str("node_b"), ParamValue::Number(node_b)));
    RpcRequest { method: String::from_str("tank_messages"), params }
}

/// The request that greps the combined logs.
pub fn grep_logs_request(pattern: &String) -> (r: RpcRequest)
    ensures
        r.method@ == "logs_grep"@,
        r.params@.len() == 1 && param_is_text(r.params@[0], "pattern"@, pattern@),
{
    let mut params: Vec<(String, ParamValue)> = Vec::new();
    params.push((String::from_str("pattern"), ParamValue::Text(pattern.clone())));
    RpcRequest { method: String::from_str("logs_grep"), params }
}

/// The request that asks the server to generate a deployment descriptor
/// from a graph file path.
pub fn generate_compose_request(graph_file_path: &String) -> (r: RpcRequest)
    ensures
        r.method@ == "generate_compose"@,
        r.params@.len() == 1 && param_is_text(r.params@[0], "graph_file"@, graph_file_path@),
{
    let mut params: Vec<(String, ParamValue)> = Vec::new();
    params.push((String::from_str("graph_file"), ParamValue::Text(graph_file_path.clone())));
    RpcRequest { method: String::from_str("generate_compose"), params }
}

} // verus!
