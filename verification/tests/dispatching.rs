use ostrich::config::Outbound;
use ostrich::dispatch::dispatch_datagram;
use ostrich::dispatch::dispatch_stream;
use ostrich::dispatch::has_capability;
use ostrich::dispatch::select_outbound;
use ostrich::dispatch::DispatchError;
use ostrich::dispatch::Half;
use ostrich::dispatch::Side;
use ostrich::dispatch::Splice;
use ostrich::dispatch::SpliceStep;
use ostrich::outbound::OutboundHandler;
use ostrich::outbound::OutboundManager;
use ostrich::outbound::Transport;
use ostrich::router::Predicate;
use ostrich::router::Router;
use ostrich::router::Rule;
use ostrich::session::Destination;
use ostrich::session::IpAddress;
use ostrich::session::Network;
use ostrich::session::Session;
use ostrich::session::SocketAddress;

fn direct(tag: &str) -> Outbound {
    Outbound { tag: tag.to_string(), protocol: "direct".to_string(), settings: vec![],
        trojan: Err("no settings".to_string()),
    }
}

fn handler(tag: &str, stream: bool, datagram: bool) -> OutboundHandler {
    OutboundHandler { tag: tag.to_string(), transport: Transport::Direct, stream, datagram }
}

fn session(name: &str, network: Network) -> Session {
    Session {
        network,
        source: SocketAddress { ip: IpAddress::V4(0x7f000001), port: 40000 },
        destination: Destination::Domain(name.to_string(), 443),
        inbound_tag: "s_in".to_string(),
        client: None,
        created_at: 1,
    }
}

fn suffix_router() -> Router {
    Router::new(
        vec![
            Rule {
                predicates: vec![Predicate::DomainSuffix("example.com".to_string())],
                target_tag: "trojan_x".to_string(),
                ip_cidrs: vec![],
            },
            Rule {
                predicates: vec![Predicate::DomainSuffix("stream.only".to_string())],
                target_tag: "tcp_only".to_string(),
                ip_cidrs: vec![],
            },
            Rule {
                predicates: vec![Predicate::DomainSuffix("nowhere".to_string())],
                target_tag: "missing".to_string(),
                ip_cidrs: vec![],
            },
        ],
        vec![],
    )
}

fn catalog() -> OutboundManager {
    let mut manager = OutboundManager::new(&vec![direct("direct")]).unwrap();
    manager.add("trojan_x".to_string(), handler("trojan_x", true, true));
    manager.add("tcp_only".to_string(), handler("tcp_only", true, false));
    manager.add("udp_only".to_string(), handler("udp_only", false, true));
    manager
}

#[test]
fn routed_tag_or_default_takes_the_stream() {
    let router = suffix_router();
    let manager = catalog();
    let hit = dispatch_stream(&router, &manager, &session("foo.example.com", Network::Tcp), &vec![]);
    assert_eq!(hit.unwrap().tag, "trojan_x");
    let miss = dispatch_stream(&router, &manager, &session("other.net", Network::Tcp), &vec![]);
    assert_eq!(miss.unwrap().tag, "direct");
    let gone = dispatch_stream(&router, &manager, &session("a.nowhere", Network::Tcp), &vec![]);
    assert_eq!(gone.unwrap().tag, "direct");
}

#[test]
fn stream_only_outbound_never_gets_a_datagram_flow() {
    let router = suffix_router();
    let manager = catalog();
    let udp = session("a.stream.only", Network::Udp);
    assert_eq!(dispatch_datagram(&router, &manager, &udp, &vec![]).unwrap().tag, "direct");
    let tcp = session("a.stream.only", Network::Tcp);
    assert_eq!(dispatch_stream(&router, &manager, &tcp, &vec![]).unwrap().tag, "tcp_only");
}

#[test]
fn handler_that_takes_a_stream_has_the_stream_capability() {
    let manager = catalog();
    for tag in ["direct", "trojan_x", "tcp_only", "udp_only", "missing"] {
        let routed = tag.to_string();
        match select_outbound(&manager, Some(&routed), Network::Tcp) {
            Ok(h) => {
                assert!(h.stream);
                assert!(h.tag == tag || h.tag == "direct");
            }
            Err(e) => panic!("{:?}", e),
        }
    }
}

#[test]
fn default_without_the_capability_is_a_protocol_error() {
    let mut manager = OutboundManager::new(&vec![]).unwrap();
    manager.add("tcp_only".to_string(), handler("tcp_only", true, false));
    manager.add("udp_only".to_string(), handler("udp_only", false, true));
    assert_eq!(
        select_outbound(&manager, None, Network::Udp).err(),
        Some(DispatchError::ProtocolError)
    );
    let routed = "udp_only".to_string();
    assert_eq!(select_outbound(&manager, Some(&routed), Network::Udp).unwrap().tag, "udp_only");
    assert_eq!(select_outbound(&manager, Some(&routed), Network::Tcp).unwrap().tag, "tcp_only");
}

#[test]
fn empty_catalog_has_no_outbound() {
    let manager = OutboundManager::new(&vec![]).unwrap();
    let routed = "direct".to_string();
    assert_eq!(
        select_outbound(&manager, Some(&routed), Network::Tcp).err(),
        Some(DispatchError::NoOutbound)
    );
    assert_eq!(select_outbound(&manager, None, Network::Udp).err(), Some(DispatchError::NoOutbound));
}

#[test]
fn capability_is_read_by_kind() {
    assert!(has_capability(&handler("h", true, false), Network::Tcp));
    assert!(!has_capability(&handler("h", true, false), Network::Udp));
    assert!(has_capability(&handler("h", false, true), Network::Udp));
    assert!(!has_capability(&handler("h", false, true), Network::Tcp));
}

#[test]
fn ended_half_shuts_the_other_end_and_the_last_releases() {
    let mut splice = Splice::new();
    assert_eq!(
        splice.half_ended(Half::Uplink),
        SpliceStep { shutdown: Some(Side::Remote), release: false }
    );
    assert!(splice.uplink_ended && !splice.downlink_ended);
    assert_eq!(splice.half_ended(Half::Uplink), SpliceStep { shutdown: None, release: false });
    assert_eq!(
        splice.half_ended(Half::Downlink),
        SpliceStep { shutdown: Some(Side::Client), release: true }
    );
    assert!(splice.uplink_ended && splice.downlink_ended);
    assert_eq!(splice.half_ended(Half::Downlink), SpliceStep { shutdown: None, release: false });
    assert_eq!(splice.half_ended(Half::Uplink), SpliceStep { shutdown: None, release: false });
}

#[test]
fn downlink_may_end_first() {
    let mut splice = Splice::new();
    assert_eq!(
        splice.half_ended(Half::Downlink),
        SpliceStep { shutdown: Some(Side::Client), release: false }
    );
    assert_eq!(
        splice.half_ended(Half::Uplink),
        SpliceStep { shutdown: Some(Side::Remote), release: true }
    );
}
