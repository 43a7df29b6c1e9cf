use ostrich::socks::method_reply;
use ostrich::socks::read_greeting;
use ostrich::socks::read_request;
use ostrich::socks::read_udp_header;
use ostrich::socks::reply;
use ostrich::socks::write_udp;
use ostrich::socks::SocksCommand;
use ostrich::socks::SocksError;
use ostrich::socks::REPLY_SUCCEEDED;
use ostrich::trojan::FrameError;
use ostrich::trojan::Host;

#[test]
fn greeting_offers_its_methods() {
    let g = read_greeting(&[5, 1, 0]).unwrap();
    assert!(g.no_auth);
    assert_eq!(g.consumed, 3);
    let g = read_greeting(&[5, 2, 2, 0, 5, 1]).unwrap();
    assert!(g.no_auth);
    assert_eq!(g.consumed, 4);
    let g = read_greeting(&[5, 2, 2, 1, 0]).unwrap();
    assert!(!g.no_auth);
    assert_eq!(g.consumed, 4);
    let g = read_greeting(&[5, 0, 0]).unwrap();
    assert!(!g.no_auth);
    assert_eq!(g.consumed, 2);
}

#[test]
fn greeting_may_be_cut_short_or_of_another_version() {
    assert_eq!(read_greeting(&[]).err(), Some(SocksError::Incomplete));
    assert_eq!(read_greeting(&[5]).err(), Some(SocksError::Incomplete));
    assert_eq!(read_greeting(&[5, 2, 0]).err(), Some(SocksError::Incomplete));
    assert_eq!(read_greeting(&[4]).err(), Some(SocksError::BadVersion));
    assert_eq!(read_greeting(&[4, 1, 0]).err(), Some(SocksError::BadVersion));
}

#[test]
fn method_is_chosen_or_refused() {
    assert_eq!(method_reply(true), [5, 0]);
    assert_eq!(method_reply(false), [5, 0xff]);
}

#[test]
fn connect_to_an_address() {
    let q = read_request(&[5, 1, 0, 1, 127, 0, 0, 1, 0x4a, 0x38, 99]).unwrap();
    assert_eq!(q.command, SocksCommand::Connect);
    assert_eq!(q.host, Host::V4([127, 0, 0, 1]));
    assert_eq!(q.port, 19000);
    assert_eq!(q.consumed, 10);
}

#[test]
fn associate_with_a_name() {
    let mut bytes = vec![5, 3, 0, 3, 11];
    bytes.extend_from_slice(b"example.com");
    bytes.extend_from_slice(&[0, 53]);
    let q = read_request(&bytes).unwrap();
    assert_eq!(q.command, SocksCommand::UdpAssociate);
    assert_eq!(q.host, Host::Name(b"example.com".to_vec()));
    assert_eq!(q.port, 53);
    assert_eq!(q.consumed, bytes.len());
    for cut in 0..bytes.len() {
        assert_eq!(read_request(&bytes[..cut]).err(), Some(SocksError::Incomplete));
    }
}

#[test]
fn bind_to_an_ipv6_address() {
    let mut bytes = vec![5, 2, 0, 4];
    bytes.extend_from_slice(&[0; 15]);
    bytes.extend_from_slice(&[1, 1, 0]);
    let q = read_request(&bytes).unwrap();
    assert_eq!(q.command, SocksCommand::Bind);
    let mut six = [0u8; 16];
    six[15] = 1;
    assert_eq!(q.host, Host::V6(six));
    assert_eq!(q.port, 256);
    assert_eq!(q.consumed, 22);
}

#[test]
fn request_that_is_refused() {
    assert_eq!(read_request(&[4, 1, 0, 1]).err(), Some(SocksError::BadVersion));
    assert_eq!(read_request(&[5, 0, 0, 1, 1, 2, 3, 4, 0, 1]).err(), Some(SocksError::UnknownCommand));
    assert_eq!(read_request(&[5, 4, 0, 1, 1, 2, 3, 4, 0, 1]).err(), Some(SocksError::UnknownCommand));
    assert_eq!(read_request(&[5, 1, 0, 2, 1, 2, 3, 4, 0, 1]).err(), Some(SocksError::UnknownAddress));
    assert_eq!(read_request(&[5, 1, 0]).err(), Some(SocksError::Incomplete));
}

#[test]
fn reply_carries_the_bound_address() {
    assert_eq!(
        reply(REPLY_SUCCEEDED, &Host::V4([0, 0, 0, 0]), 0),
        Ok(vec![5, 0, 0, 1, 0, 0, 0, 0, 0, 0])
    );
    assert_eq!(
        reply(7, &Host::Name(b"a".to_vec()), 258),
        Ok(vec![5, 7, 0, 3, 1, b'a', 1, 2])
    );
    assert_eq!(reply(1, &Host::Name(vec![0; 256]), 0), Err(FrameError::NameTooLong));
}

#[test]
fn datagram_of_an_association_names_its_destination() {
    let bytes = [0, 0, 0, 1, 8, 8, 8, 8, 0, 53, b'A', b'B'];
    let h = read_udp_header(&bytes).unwrap();
    assert_eq!(h.host, Host::V4([8, 8, 8, 8]));
    assert_eq!(h.port, 53);
    assert_eq!(&bytes[h.payload_at..], b"AB");
    assert_eq!(read_udp_header(&[0, 0, 1, 1, 8, 8, 8, 8, 0, 53]).err(), Some(SocksError::Fragmented));
    assert_eq!(read_udp_header(&[0, 0]).err(), Some(SocksError::Incomplete));
    assert_eq!(read_udp_header(&[0, 0, 0, 1, 8, 8]).err(), Some(SocksError::Incomplete));
    assert_eq!(read_udp_header(&[0, 0, 0, 9, 8, 8]).err(), Some(SocksError::UnknownAddress));
}

#[test]
fn datagram_written_for_the_client_is_read_back() {
    let host = Host::Name(b"dns.example".to_vec());
    let bytes = write_udp(&host, 5353, b"reply").unwrap();
    let h = read_udp_header(&bytes).unwrap();
    assert_eq!(h.host, host);
    assert_eq!(h.port, 5353);
    assert_eq!(&bytes[h.payload_at..], b"reply");
    assert_eq!(write_udp(&Host::V4([8, 8, 8, 8]), 53, b""), Ok(vec![0, 0, 0, 1, 8, 8, 8, 8, 0, 53]));
    assert_eq!(write_udp(&Host::Name(vec![1; 300]), 1, b"x"), Err(FrameError::NameTooLong));
}
