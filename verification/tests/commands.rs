use warnet_cli::commands::{
    debug_log_request, generate_compose_request, grep_logs_request, messages_request,
    network_request, rpc_request, scenario_request, NetworkCommand, NodeType, ParamValue,
    ScenarioCommand,
};

fn text_of(p: &(String, ParamValue)) -> &str {
    match &p.1 {
        ParamValue::Text(s) => s.as_str(),
        _ => panic!("expected a text parameter"),
    }
}

#[test]
fn network_start_encodes_graph_file() {
    let cmd = NetworkCommand::Start { graph_file: "g.graphml".to_string(), force: true };
    let contents: Vec<u8> = b"hello".to_vec();
    let q = network_request(&cmd, Some(&contents)).unwrap();
    assert_eq!(q.method, "network_from_file");
    assert_eq!(q.params.len(), 2);
    assert_eq!(q.params[0].0, "graph_file");
    assert_eq!(text_of(&q.params[0]), "aGVsbG8=");
    assert_eq!(q.params[1].0, "force");
    assert!(matches!(q.params[1].1, ParamValue::Flag(true)));
}

#[test]
fn network_start_without_contents_fails() {
    let cmd = NetworkCommand::Start { graph_file: "g".to_string(), force: false };
    assert!(network_request(&cmd, None).is_err());
}

#[test]
fn network_methods_map_one_to_one() {
    let cases = [
        (NetworkCommand::Up {}, "network_up"),
        (NetworkCommand::Down {}, "network_down"),
        (NetworkCommand::Info {}, "network_info"),
        (NetworkCommand::Status {}, "network_status"),
        (NetworkCommand::Connected {}, "network_connected"),
        (NetworkCommand::Export {}, "network_export"),
    ];
    for (cmd, method) in cases {
        let q = network_request(&cmd, None).unwrap();
        assert_eq!(q.method, method);
        assert!(q.params.is_empty());
    }
}

#[test]
fn scenario_run_carries_name_and_args() {
    let cmd = ScenarioCommand::Run {
        scenario: "miner_std".to_string(),
        additional_args: vec!["--interval=10".to_string(), "--fast".to_string()],
    };
    let q = scenario_request(&cmd, None).unwrap();
    assert_eq!(q.method, "scenarios_run");
    assert_eq!(q.params[0].0, "scenario");
    assert_eq!(text_of(&q.params[0]), "miner_std");
    assert_eq!(q.params[1].0, "additional_args");
    match &q.params[1].1 {
        ParamValue::TextList(v) => assert_eq!(v, &vec!["--interval=10".to_string(), "--fast".to_string()]),
        _ => panic!("expected a list parameter"),
    }
}

#[test]
fn scenario_run_file_encodes_contents() {
    let cmd = ScenarioCommand::RunFile {
        scenario_path: "s.py".to_string(),
        additional_args: Vec::new(),
    };
    let contents: Vec<u8> = vec![0u8, 255u8, 16u8];
    let q = scenario_request(&cmd, Some(&contents)).unwrap();
    assert_eq!(q.method, "scenarios_run_file");
    assert_eq!(q.params[0].0, "scenario_base64");
    assert_eq!(text_of(&q.params[0]), "AP8Q");
    let cmd = ScenarioCommand::RunFile {
        scenario_path: "s.py".to_string(),
        additional_args: Vec::new(),
    };
    assert!(scenario_request(&cmd, None).is_err());
}

#[test]
fn scenario_list_and_stop_requests() {
    let q = scenario_request(&ScenarioCommand::Available {}, None).unwrap();
    assert_eq!(q.method, "scenarios_available");
    let q = scenario_request(&ScenarioCommand::Active {}, None).unwrap();
    assert_eq!(q.method, "scenarios_list_running");
    let q = scenario_request(&ScenarioCommand::Stop { pid: 4711 }, None).unwrap();
    assert_eq!(q.method, "scenarios_stop");
    assert_eq!(q.params[0].0, "pid");
    assert!(matches!(q.params[0].1, ParamValue::Number(4711)));
}

#[test]
fn node_tools_share_the_server_method() {
    let method = "getblockcount".to_string();
    let q = rpc_request(&NodeType::BitcoinCli, 2, &method, None);
    assert_eq!(q.method, "tank_bcli");
    assert_eq!(q.params.len(), 2);
    assert!(matches!(q.params[0].1, ParamValue::Number(2)));
    assert_eq!(text_of(&q.params[1]), "getblockcount");
    let args = vec!["3".to_string()];
    let q = rpc_request(&NodeType::LnCli, 0, &method, Some(&args));
    assert_eq!(q.method, "tank_bcli");
    assert_eq!(q.params.len(), 3);
    assert_eq!(q.params[2].0, "params");
}

#[test]
fn log_and_compose_requests() {
    let q = debug_log_request(7);
    assert_eq!(q.method, "tank_debug_log");
    assert!(matches!(q.params[0].1, ParamValue::Number(7)));
    let q = messages_request(1, 2);
    assert_eq!(q.method, "tank_messages");
    assert_eq!(q.params.len(), 2);
    let pattern = "reorg".to_string();
    let q = grep_logs_request(&pattern);
    assert_eq!(q.method, "logs_grep");
    assert_eq!(text_of(&q.params[0]), "reorg");
    let path = "graphs/default.graphml".to_string();
    let q = generate_compose_request(&path);
    assert_eq!(q.method, "generate_compose");
    assert_eq!(q.params[0].0, "graph_file");
    assert_eq!(text_of(&q.params[0]), "graphs/default.graphml");
}
