use warnet_cli::config::{
    dump_bitcoin_conf, handle_bitcoin_conf, parse_bitcoin_conf, ConfigFile, ConfigSection,
};

#[test]
fn flatten_absent_config_is_empty() {
    assert_eq!(handle_bitcoin_conf(None).unwrap(), "");
}

#[test]
fn flatten_global_and_one_section() {
    let conf = ConfigFile {
        global: vec![("a".to_string(), "1".to_string())],
        sections: vec![ConfigSection {
            name: "net".to_string(),
            entries: vec![("b".to_string(), "2".to_string())],
        }],
    };
    assert_eq!(dump_bitcoin_conf(&conf), "a=1,[net],b=2");
}

#[test]
fn flatten_parsed_text() {
    let out = handle_bitcoin_conf(Some("a=1\n[net]\nb=2\n")).unwrap();
    assert_eq!(out, "a=1,[net],b=2");
}

#[test]
fn flatten_empty_config_text() {
    assert_eq!(handle_bitcoin_conf(Some("")).unwrap(), "");
}

#[test]
fn flatten_many_sections_keeps_order() {
    let out = handle_bitcoin_conf(Some(
        "rpcuser=alice\nrpcpassword=hunter\n[main]\nport=8333\n[test]\nport=18333\nfallbackfee=0.0002\n",
    ))
    .unwrap();
    assert_eq!(
        out,
        "rpcuser=alice,rpcpassword=hunter,[main],port=8333,[test],port=18333,fallbackfee=0.0002"
    );
}

#[test]
fn flatten_section_only_config() {
    let out = handle_bitcoin_conf(Some("[regtest]\ndebug=1\n")).unwrap();
    assert_eq!(out, "[regtest],debug=1");
}

#[test]
fn parse_failure_is_an_error() {
    assert!(handle_bitcoin_conf(Some("=1\n")).is_err());
}

#[test]
fn parse_returns_sections() {
    let conf = parse_bitcoin_conf("x=9\n[wallet]\nname=w1\n").unwrap();
    assert_eq!(conf.global, vec![("x".to_string(), "9".to_string())]);
    assert_eq!(conf.sections.len(), 1);
    assert_eq!(conf.sections[0].name, "wallet");
    assert_eq!(conf.sections[0].entries, vec![("name".to_string(), "w1".to_string())]);
}
