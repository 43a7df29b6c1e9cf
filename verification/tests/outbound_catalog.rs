use ostrich::config::Outbound;
use ostrich::config::TrojanOutboundSettings;
use ostrich::outbound::OutboundHandler;
use ostrich::outbound::OutboundManager;
use ostrich::outbound::Transport;
use ostrich::ConfigError;

fn trojan_settings(address: &str, port: u32) -> TrojanOutboundSettings {
    TrojanOutboundSettings {
        address: address.to_string(),
        port,
        password: "secret".to_string(),
        server_name: "relay.example.com".to_string(),
    }
}

fn direct(tag: &str) -> Outbound {
    Outbound { tag: tag.to_string(), protocol: "direct".to_string(), settings: vec![],
        trojan: Err("no settings".to_string()),
    }
}

fn trojan(tag: &str, blob: &[u8]) -> Outbound {
    Outbound {
        tag: tag.to_string(),
        protocol: "trojan".to_string(),
        settings: blob.to_vec(),
        trojan: Ok(trojan_settings("relay.example.com", 443)),
    }
}

fn tags(manager: &OutboundManager) -> Vec<String> {
    manager.handlers().iter().map(|h| h.tag.clone()).collect()
}

#[test]
fn identical_settings_share_one_instance() {
    let outbounds = vec![trojan("a", &[1, 2, 3]), trojan("b", &[1, 2, 3])];
    let manager = OutboundManager::new(&outbounds).unwrap();
    assert_eq!(manager.instance_of("a"), Some(0));
    assert_eq!(manager.instance_of("b"), Some(0));
    assert!(std::ptr::eq(manager.get("a").unwrap(), manager.get("b").unwrap()));
    assert_eq!(manager.get("b").unwrap().tag, "a");
}

#[test]
fn different_settings_get_their_own_instances() {
    let outbounds = vec![trojan("a", &[1, 2, 3]), trojan("b", &[1, 2, 4]), direct("c")];
    let manager = OutboundManager::new(&outbounds).unwrap();
    assert_eq!(manager.instance_of("a"), Some(0));
    assert_eq!(manager.instance_of("b"), Some(1));
    assert_eq!(manager.instance_of("c"), Some(2));
    assert_eq!(manager.get("b").unwrap().tag, "b");
}

#[test]
fn instances_count_distinct_protocol_and_settings_pairs() {
    let outbounds = vec![
        direct("d1"),
        trojan("t1", &[9]),
        direct("d2"),
        trojan("t2", &[9]),
        trojan("t3", &[8]),
        trojan("t4", &[9]),
    ];
    let manager = OutboundManager::new(&outbounds).unwrap();
    let mut slots: Vec<usize> =
        ["d1", "t1", "d2", "t2", "t3", "t4"].iter().map(|t| manager.instance_of(t).unwrap()).collect();
    assert_eq!(slots, vec![0, 1, 0, 1, 2, 1]);
    slots.sort();
    slots.dedup();
    assert_eq!(slots.len(), 3);
    assert_eq!(manager.handlers().len(), 6);
}

#[test]
fn same_blob_under_another_protocol_is_not_shared() {
    let mut plain = direct("d");
    plain.settings = vec![7];
    let outbounds = vec![plain, trojan("t", &[7])];
    let manager = OutboundManager::new(&outbounds).unwrap();
    assert_eq!(manager.instance_of("d"), Some(0));
    assert_eq!(manager.instance_of("t"), Some(1));
}

#[test]
fn first_inserted_tag_is_the_default() {
    let outbounds = vec![trojan("trojan_x", &[1]), direct("direct")];
    let manager = OutboundManager::new(&outbounds).unwrap();
    assert_eq!(manager.default_handler(), Some("trojan_x".to_string()));
    assert_eq!(tags(&manager), vec!["trojan_x".to_string(), "direct".to_string()]);
}

#[test]
fn empty_configuration_has_no_default() {
    let manager = OutboundManager::new(&vec![]).unwrap();
    assert_eq!(manager.default_handler(), None);
    assert!(manager.get("direct").is_none());
    assert_eq!(manager.instance_of("direct"), None);
    assert_eq!(manager.handlers().len(), 0);
}

#[test]
fn unknown_protocol_is_left_out() {
    let unknown = Outbound {
        tag: "x".to_string(),
        protocol: "carrier-pigeon".to_string(),
        settings: vec![],
        trojan: Err("not trojan".to_string()),
    };
    let outbounds = vec![unknown, direct("direct")];
    let manager = OutboundManager::new(&outbounds).unwrap();
    assert!(manager.get("x").is_none());
    assert_eq!(manager.default_handler(), Some("direct".to_string()));
    assert_eq!(tags(&manager), vec!["direct".to_string()]);
}

#[test]
fn repeated_tag_keeps_the_first_outbound() {
    let outbounds = vec![direct("out"), trojan("out", &[1])];
    let manager = OutboundManager::new(&outbounds).unwrap();
    assert_eq!(manager.handlers().len(), 1);
    assert!(matches!(manager.get("out").unwrap().transport, Transport::Direct));
}

#[test]
fn undecodable_trojan_settings_fail_the_build() {
    let mut broken = trojan("bad", &[0xff]);
    broken.trojan = Err("unexpected end of input".to_string());
    let outbounds = vec![direct("direct"), broken, trojan("later", &[1])];
    match OutboundManager::new(&outbounds) {
        Err(e) => {
            assert_eq!(
                e,
                ConfigError::InvalidOutboundSettings(
                    "bad".to_string(),
                    "unexpected end of input".to_string()
                )
            );
            assert_eq!(e.message(), "invalid [bad] outbound settings: unexpected end of input");
        }
        Ok(_) => panic!("the build must fail"),
    }
}

#[test]
fn undecodable_settings_are_not_read_for_a_shared_instance() {
    let mut copy = trojan("b", &[5]);
    copy.trojan = Err("never read".to_string());
    let outbounds = vec![trojan("a", &[5]), copy];
    let manager = OutboundManager::new(&outbounds).unwrap();
    assert_eq!(manager.instance_of("b"), Some(0));
}

#[test]
fn trojan_handler_carries_its_settings() {
    let mut outbound = trojan("t", &[1]);
    outbound.trojan = Ok(trojan_settings("10.1.2.3", 65536 + 8443));
    let manager = OutboundManager::new(&vec![outbound]).unwrap();
    let handler = manager.get("t").unwrap();
    assert!(handler.stream);
    assert!(handler.datagram);
    match &handler.transport {
        Transport::Trojan { address, port, password, server_name, tls_config } => {
            assert_eq!(address, "10.1.2.3");
            assert_eq!(*port, 8443);
            assert_eq!(password, "secret");
            assert_eq!(server_name, "relay.example.com");
            assert!(!tls_config.alpn_protocols.iter().any(|p| p.is_empty()));
        }
        Transport::Direct => panic!("a trojan handler is expected"),
    }
}

#[test]
fn direct_handler_has_both_capabilities() {
    let manager = OutboundManager::new(&vec![direct("direct")]).unwrap();
    let handler = manager.get("direct").unwrap();
    assert_eq!(handler.tag, "direct");
    assert!(handler.stream && handler.datagram);
    assert!(matches!(handler.transport, Transport::Direct));
}

#[test]
fn added_handler_is_found_and_keeps_order() {
    let mut manager = OutboundManager::new(&vec![direct("a"), direct("b")]).unwrap();
    let extra = OutboundHandler {
        tag: "extra".to_string(),
        transport: Transport::Direct,
        stream: true,
        datagram: false,
    };
    manager.add("c".to_string(), extra);
    assert_eq!(manager.instance_of("c"), Some(1));
    assert!(!manager.get("c").unwrap().datagram);
    let replacement = OutboundHandler {
        tag: "replacement".to_string(),
        transport: Transport::Direct,
        stream: false,
        datagram: true,
    };
    manager.add("a".to_string(), replacement);
    assert_eq!(manager.instance_of("a"), Some(2));
    assert_eq!(
        tags(&manager),
        vec!["replacement".to_string(), "a".to_string(), "extra".to_string()]
    );
    assert_eq!(manager.default_handler(), Some("a".to_string()));
}

#[test]
fn handler_added_to_an_empty_catalog_becomes_the_default() {
    let mut manager = OutboundManager::new(&vec![]).unwrap();
    let handler = OutboundHandler {
        tag: "only".to_string(),
        transport: Transport::Direct,
        stream: true,
        datagram: true,
    };
    manager.add("only".to_string(), handler);
    assert_eq!(manager.default_handler(), Some("only".to_string()));
    assert_eq!(manager.instance_of("only"), Some(0));
}

#[test]
fn added_handler_is_the_one_found_under_its_tag() {
    let mut manager = OutboundManager::new(&vec![direct("a")]).unwrap();
    let handler = OutboundHandler {
        tag: "fresh".to_string(),
        transport: Transport::Direct,
        stream: false,
        datagram: true,
    };
    manager.add("b".to_string(), handler);
    let found = manager.get("b").unwrap();
    assert_eq!(found.tag, "fresh");
    assert!(!found.stream && found.datagram);
    assert_eq!(manager.get("a").unwrap().tag, "a");
}
