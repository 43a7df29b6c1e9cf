use ostrich::config::Dns;
use ostrich::config::Host;
use ostrich::config::Inbound;
use ostrich::config::Outbound;
use ostrich::config::Router;
use ostrich::default_thread_stack_size;
use ostrich::get_version_string;
use ostrich::inbound::Platform;
use ostrich::is_running;
use ostrich::outbound::OutboundManager;
use ostrich::router::Rule;
use ostrich::shutdown;
use ostrich::start;
use ostrich::test_config;
use ostrich::Config;
use ostrich::ConfigError;
use ostrich::Error;
use ostrich::RuntimeManager;
use ostrich::RuntimeOption;
use ostrich::RuntimeRegistry;
use ostrich::StartOptions;
use ostrich::INSTANCE_ID;

fn outbound(tag: &str, protocol: &str) -> Outbound {
    Outbound {
        tag: tag.to_string(),
        protocol: protocol.to_string(),
        settings: vec![],
        trojan: Err("empty settings".to_string()),
    }
}

fn rule(target: &str, cidrs: &[&str]) -> Rule {
    Rule {
        predicates: vec![],
        target_tag: target.to_string(),
        ip_cidrs: cidrs.iter().map(|s| s.to_string()).collect(),
    }
}

fn config(rules: Vec<Rule>, outbounds: Vec<Outbound>) -> ostrich::config::Config {
    ostrich::config::Config {
        dns: Dns {
            servers: vec!["1.1.1.1".to_string()],
            hosts: vec![
                Host {
                    name: "a.example".to_string(),
                    values: vec!["10.0.0.1".to_string(), "10.0.0.2".to_string()],
                },
                Host { name: "b.example".to_string(), values: vec![] },
                Host { name: "c.example".to_string(), values: vec!["10.0.0.3".to_string()] },
            ],
        },
        router: Router { rules },
        inbounds: vec![Inbound {
            tag: "socks_in".to_string(),
            protocol: "socks".to_string(),
            address: "127.0.0.1".to_string(),
            port: 1080,
            settings: vec![],
            tun: Err("no tun settings".to_string()),
        }],
        outbounds,
    }
}

#[test]
fn test_restart() {
    let conf = config(vec![], vec![outbound("Direct", "direct")]);
    let mut registry = RuntimeRegistry::new();
    for _i in 1..3 {
        let instance = start(&mut registry, None, &conf, Platform::Linux).unwrap();
        assert_eq!(instance.outbound_manager.default_handler(), Some("Direct".to_string()));
        assert!(is_running(&registry));
        assert!(shutdown(&mut registry, true));
        let ended = registry.finish(INSTANCE_ID);
        assert!(ended.unwrap().shutdown_requested());
        assert!(!is_running(&registry));
    }
}

#[test]
fn second_start_is_refused_while_the_instance_is_live() {
    let conf = config(vec![], vec![outbound("direct", "direct")]);
    let mut registry = RuntimeRegistry::new();
    assert!(start(&mut registry, Some("config.conf".to_string()), &conf, Platform::Macos).is_ok());
    match start(&mut registry, None, &conf, Platform::Macos) {
        Err(e) => assert_eq!(e, Error::Config(ConfigError::AlreadyRunning(INSTANCE_ID))),
        Ok(_) => panic!("a second start must be refused"),
    }
    assert!(is_running(&registry));
    assert!(!registry.finish(INSTANCE_ID).unwrap().shutdown_requested());
    assert!(start(&mut registry, None, &conf, Platform::Macos).is_ok());
}

#[test]
fn shutdown_without_an_instance_reports_false() {
    let mut registry = RuntimeRegistry::new();
    assert!(!is_running(&registry));
    assert!(!shutdown(&mut registry, true));
    assert!(!shutdown(&mut registry, false));
    assert!(registry.finish(INSTANCE_ID).is_none());
    assert!(!registry.shutdown(7, true));
}

#[test]
fn instances_are_kept_apart_by_id() {
    let mut registry = RuntimeRegistry::new();
    assert_eq!(registry.start(2, RuntimeManager::new(None)), Ok(()));
    assert_eq!(registry.start(3, RuntimeManager::new(None)), Ok(()));
    assert_eq!(
        registry.start(2, RuntimeManager::new(None)),
        Err(Error::Config(ConfigError::AlreadyRunning(2)))
    );
    assert!(registry.is_running(2));
    assert!(registry.is_running(3));
    assert!(!registry.is_running(INSTANCE_ID));
    assert!(registry.shutdown(3, true));
    assert!(!registry.finish(2).unwrap().shutdown_requested());
    assert!(registry.finish(3).unwrap().shutdown_requested());
    assert!(!registry.is_running(2));
    assert!(!registry.is_running(3));
}

#[test]
fn runtime_manager_notes_the_shutdown() {
    let mut manager = RuntimeManager::new(Some("config.conf".to_string()));
    assert!(!manager.shutdown_requested());
    assert!(!manager.shutdown(false));
    assert!(!manager.shutdown_requested());
    assert!(manager.shutdown(true));
    assert!(manager.shutdown_requested());
    assert!(!manager.blocking_shutdown(false));
    assert!(manager.shutdown_requested());
    let mut other = RuntimeManager::new(None);
    assert!(!other.blocking_shutdown(false));
    assert!(!other.shutdown_requested());
    assert!(other.blocking_shutdown(true));
    assert!(other.shutdown_requested());
}

#[test]
fn start_fails_on_the_configuration_and_leaves_the_registry() {
    let mut registry = RuntimeRegistry::new();
    let conf = config(vec![], vec![outbound("direct", "direct"), outbound("bad", "trojan")]);
    match start(&mut registry, None, &conf, Platform::Linux) {
        Err(e) => {
            assert_eq!(
                e,
                Error::Config(ConfigError::InvalidOutboundSettings(
                    "bad".to_string(),
                    "empty settings".to_string()
                ))
            )
        }
        Ok(_) => panic!("the configuration must be refused"),
    }
    assert!(!is_running(&registry));
    let mut conf = config(vec![], vec![outbound("direct", "direct")]);
    conf.inbounds.push(Inbound {
        tag: "tun_in".to_string(),
        protocol: "tun".to_string(),
        address: String::new(),
        port: 0,
        settings: vec![],
        tun: Err("bad tun settings".to_string()),
    });
    match start(&mut registry, None, &conf, Platform::Linux) {
        Err(e) => {
            assert_eq!(
                e,
                Error::Config(ConfigError::InvalidInboundSettings(
                    "tun_in".to_string(),
                    "bad tun settings".to_string()
                ))
            )
        }
        Ok(_) => panic!("the configuration must be refused"),
    }
    assert!(!is_running(&registry));
    assert!(start(&mut registry, None, &conf, Platform::Windows).is_ok());
}

#[test]
fn started_instance_has_listeners_and_ipset() {
    let mut registry = RuntimeRegistry::new();
    let conf = config(
        vec![rule("direct", &["192.168.0.0/16"]), rule("direct", &["172.16.0.0/12"])],
        vec![outbound("direct", "direct")],
    );
    let instance = start(&mut registry, None, &conf, Platform::Windows).unwrap();
    assert_eq!(
        instance.ipset,
        vec!["1.1.1.1", "10.0.0.1", "10.0.0.2", "10.0.0.3", "192.168.0.0/16"]
    );
    let listeners = instance.inbound_manager.get_network_runners();
    assert_eq!(listeners.len(), 1);
    assert_eq!(listeners[0].port, 1080);
    let no_rules = config(vec![], vec![outbound("direct", "direct")]);
    assert_eq!(
        ostrich::collect_ipset(&no_rules),
        vec!["1.1.1.1", "10.0.0.1", "10.0.0.2", "10.0.0.3"]
    );
}

#[test]
fn configuration_with_an_undefined_rule_target_is_refused() {
    let bad = config(
        vec![rule("direct", &[]), rule("trojan_x", &[]), rule("nowhere", &[])],
        vec![outbound("proxy", "direct")],
    );
    assert_eq!(
        test_config(&bad),
        Err(Error::Config(ConfigError::UnknownOutboundTag("trojan_x".to_string())))
    );
    let good = config(
        vec![rule("direct", &[]), rule("proxy", &[])],
        vec![outbound("proxy", "direct")],
    );
    assert_eq!(test_config(&good), Ok(()));
    assert_eq!(test_config(&config(vec![], vec![])), Ok(()));
}

#[test]
fn configuration_with_undecodable_settings_is_refused() {
    let bad = config(vec![], vec![outbound("relay", "trojan")]);
    let expected = Error::Config(ConfigError::InvalidOutboundSettings(
        "relay".to_string(),
        "empty settings".to_string(),
    ));
    assert_eq!(test_config(&bad), Err(expected));
    let both = config(vec![rule("missing", &[])], vec![outbound("relay", "trojan")]);
    let expected = Error::Config(ConfigError::InvalidOutboundSettings(
        "relay".to_string(),
        "empty settings".to_string(),
    ));
    assert_eq!(test_config(&both), Err(expected));
}

#[test]
fn rule_target_must_have_a_handler_in_the_catalog() {
    let unbuilt = config(vec![rule("x", &[])], vec![outbound("x", "carrier-pigeon")]);
    assert_eq!(
        test_config(&unbuilt),
        Err(Error::Config(ConfigError::UnknownOutboundTag("x".to_string())))
    );
    let mut registry = RuntimeRegistry::new();
    match start(&mut registry, None, &unbuilt, Platform::Linux) {
        Err(e) => assert_eq!(e, Error::Config(ConfigError::UnknownOutboundTag("x".to_string()))),
        Ok(_) => panic!("the configuration must be refused"),
    }
    assert!(!is_running(&registry));
}

#[test]
fn signal_that_was_not_delivered_leaves_the_instance_running() {
    let conf = config(vec![], vec![outbound("direct", "direct")]);
    let mut registry = RuntimeRegistry::new();
    assert!(start(&mut registry, None, &conf, Platform::Linux).is_ok());
    assert!(!shutdown(&mut registry, false));
    assert!(is_running(&registry));
    assert!(!registry.finish(INSTANCE_ID).unwrap().shutdown_requested());
}

#[test]
fn socks_in_direct_out_starts_with_its_listener() {
    let mut conf = config(vec![], vec![outbound("direct", "direct")]);
    conf.inbounds = vec![Inbound {
        tag: "s_in".to_string(),
        protocol: "socks".to_string(),
        address: "127.0.0.1".to_string(),
        port: 11080,
        settings: vec![],
        tun: Err("no tun settings".to_string()),
    }];
    let mut registry = RuntimeRegistry::new();
    let instance = start(&mut registry, None, &conf, Platform::Linux).unwrap();
    let listeners = instance.inbound_manager.get_network_runners();
    assert_eq!(listeners.len(), 1);
    assert_eq!(listeners[0].address, "127.0.0.1");
    assert_eq!(listeners[0].port, 11080);
    assert_eq!(listeners[0].handler.tag, "s_in");
    assert_eq!(instance.outbound_manager.default_handler(), Some("direct".to_string()));
}

#[test]
fn version_text_has_three_shapes() {
    assert_eq!(get_version_string(Some("0.9.1"), None, None), "0.9.1");
    assert_eq!(
        get_version_string(Some("0.9.1"), Some("abc123"), Some("2023-04-05")),
        "0.9.1 (abc123 - 2023-04-05)"
    );
    assert_eq!(get_version_string(None, None, None), "unknown");
    assert_eq!(get_version_string(Some("0.9.1"), Some("abc123"), None), "unknown");
    assert_eq!(get_version_string(Some("0.9.1"), None, Some("2023-04-05")), "unknown");
    assert_eq!(get_version_string(None, Some("abc123"), Some("2023-04-05")), "unknown");
}

#[test]
fn stack_size_depends_on_the_build() {
    assert_eq!(default_thread_stack_size(true), 2097152);
    assert_eq!(default_thread_stack_size(false), 262144);
}

#[test]
fn configuration_path_is_that_of_a_file() {
    assert_eq!(Config::File("config.conf".to_string()).path(), Some("config.conf".to_string()));
    assert_eq!(Config::Str("[General]".to_string()).path(), None);
    assert_eq!(Config::Internal(config(vec![], vec![])).path(), None);
    let opts = StartOptions { config: Config::File("a.conf".to_string()) };
    assert_eq!(opts.config.path(), Some("a.conf".to_string()));
    assert!(matches!(RuntimeOption::MultiThread(4, 1024), RuntimeOption::MultiThread(4, 1024)));
}

#[test]
fn errors_have_their_messages() {
    assert_eq!(Error::NoConfigFile.message(), "no associated config file");
    assert_eq!(Error::RuntimeManager.message(), "runtime manager error");
    assert_eq!(Error::Io("disk on fire".to_string()).message(), "disk on fire");
    assert_eq!(
        Error::Config(ConfigError::InvalidOutboundSettings("t".to_string(), "short".to_string()))
            .message(),
        "invalid [t] outbound settings: short"
    );
    assert_eq!(
        ConfigError::InvalidInboundSettings("tun".to_string(), "short".to_string()).message(),
        "short"
    );
    assert_eq!(ConfigError::Invalid("no such file".to_string()).message(), "no such file");
    assert_eq!(
        ConfigError::UnknownOutboundTag("x".to_string()).message(),
        "unknown outbound tag [x]"
    );
    assert_eq!(ConfigError::AlreadyRunning(1).message(), "an instance is already running");
}

#[test]
fn start_refuses_a_rule_with_an_undefined_target() {
    let mut registry = RuntimeRegistry::new();
    let bad = config(vec![rule("trojan_x", &[])], vec![outbound("direct", "direct")]);
    match start(&mut registry, None, &bad, Platform::Linux) {
        Err(e) => {
            assert_eq!(e, Error::Config(ConfigError::UnknownOutboundTag("trojan_x".to_string())))
        }
        Ok(_) => panic!("the configuration must be refused"),
    }
    assert!(!is_running(&registry));
    let catalog = OutboundManager::new(&bad.outbounds).unwrap();
    assert_eq!(
        ostrich::check_rule_targets(&bad.router.rules, &catalog),
        Err(ConfigError::UnknownOutboundTag("trojan_x".to_string()))
    );
    let reserved = config(vec![rule("direct", &[])], vec![outbound("proxy", "direct")]);
    let catalog = OutboundManager::new(&reserved.outbounds).unwrap();
    assert_eq!(ostrich::check_rule_targets(&reserved.router.rules, &catalog), Ok(()));
    assert!(start(&mut registry, None, &reserved, Platform::Linux).is_ok());
}
