use cantrip::message::DecodeError;
use cantrip::peer::PeerId;
use cantrip::ticket::{is_ticket_prefixed, PeerAddr, Ticket, TransportAddr, TICKET_PREFIX};

fn sample_endpoints() -> Vec<PeerAddr> {
    vec![
        PeerAddr { id: PeerId::from_bytes([2u8; 32]), addrs: vec![] },
        PeerAddr {
            id: PeerId::from_bytes([3u8; 32]),
            addrs: vec![
                TransportAddr::Relay("https://relay.example.org/".to_string()),
                TransportAddr::V4 { ip: [192, 168, 1, 20], port: 7777 },
                TransportAddr::V6 {
                    ip: [0x20, 0x01, 0x0d, 0xb8, 0, 0, 0, 0, 0, 0, 0, 0, 0, 0, 0, 1],
                    port: 65535,
                },
                TransportAddr::V4 { ip: [0, 0, 0, 0], port: 0 },
                TransportAddr::Relay(String::new()),
                TransportAddr::Relay("\u{e9}\u{4e2d}".repeat(100)),
            ],
        },
    ]
}

#[test]
fn test_ticket_string_roundtrip() {
    let topic = [1u8; 32];
    let node_id = PeerId::from_bytes(rand::random());
    let endpoint = PeerAddr { id: node_id, addrs: vec![] };

    let ticket = Ticket::new(topic, vec![endpoint.clone()]);

    let ticket_str = ticket.to_string();

    let parsed_ticket = Ticket::from_str(&ticket_str).expect("Failed to parse ticket");

    assert_eq!(parsed_ticket.topic(), &topic);
    assert_eq!(parsed_ticket.endpoints().len(), 1);
    assert_eq!(parsed_ticket.endpoints().first().unwrap(), &endpoint);
}

#[test]
fn ticket_with_no_endpoints_round_trips() {
    let ticket = Ticket::new([9u8; 32], vec![]);
    let text = ticket.to_string();
    assert_eq!(Ticket::from_str(&text), Ok(ticket));
}

#[test]
fn ticket_with_addresses_round_trips() {
    let ticket = Ticket::new([0xfe; 32], sample_endpoints());
    let text = ticket.to_string();
    assert!(text.starts_with("ticket-"));
    let parsed = Ticket::from_str(&text).unwrap();
    assert_eq!(parsed, ticket);
    let (topic, endpoints) = parsed.into_tuple();
    assert_eq!(topic, [0xfe; 32]);
    assert_eq!(endpoints, sample_endpoints());
}

#[test]
fn ticket_with_many_endpoints_round_trips() {
    let endpoints: Vec<PeerAddr> = (0..300u32)
        .map(|i| PeerAddr {
            id: PeerId::from_bytes([(i % 256) as u8; 32]),
            addrs: vec![TransportAddr::V4 { ip: [10, 0, (i / 256) as u8, (i % 256) as u8], port: i as u16 }],
        })
        .collect();
    let ticket = Ticket::new([4u8; 32], endpoints);
    assert_eq!(Ticket::from_bytes(&ticket.to_vec()), Ok(ticket.clone()));
    assert_eq!(Ticket::from_str(&ticket.to_string()), Ok(ticket));
}

#[test]
fn to_text_is_to_string() {
    let ticket = Ticket::new([0xfe; 32], sample_endpoints());
    assert_eq!(ticket.to_text(), Some(ticket.to_string()));
}

#[test]
fn base64_alphabet_is_url_safe_without_padding() {
    // a topic of 0xfb 0xff ... encodes to characters beyond the letters and digits
    let mut topic = [0xffu8; 32];
    topic[0] = 0xfb;
    let text = Ticket::new(topic, vec![]).to_string();
    assert!(text.starts_with("ticket--___"));
    assert!(!text.contains('=') && !text.contains('+') && !text.contains('/'));
    assert_eq!(Ticket::from_str(&text).unwrap().topic(), &topic);
}

#[test]
fn ticket_text_is_exact() {
    // 32 zero bytes and the count 0: 33 zero bytes, 44 characters of base64.
    let ticket = Ticket::new([0u8; 32], vec![]);
    assert_eq!(ticket.to_vec(), vec![0u8; 33]);
    assert_eq!(ticket.to_string(), format!("ticket-{}", "A".repeat(44)));
}

#[test]
fn ticket_binary_form_is_exact() {
    let ticket = Ticket::new(
        [1u8; 32],
        vec![PeerAddr {
            id: PeerId::from_bytes([2u8; 32]),
            addrs: vec![
                TransportAddr::Relay("ab".to_string()),
                TransportAddr::V4 { ip: [127, 0, 0, 1], port: 300 },
            ],
        }],
    );
    let mut expected = vec![1u8; 32];
    expected.push(1);
    expected.extend_from_slice(&[2u8; 32]);
    expected.push(2);
    expected.extend_from_slice(&[0, 2, b'a', b'b']);
    expected.extend_from_slice(&[1, 0, 127, 0, 0, 1, 0xac, 0x02]);
    assert_eq!(ticket.to_vec(), expected);
}

#[test]
fn missing_prefix_is_reported() {
    let text = Ticket::new([1u8; 32], vec![]).to_string();
    for case in ["", "ticket", "Ticket-AAAA", "tickets-", &text[1..], &text[7..]] {
        assert_eq!(Ticket::from_str(case), Err(DecodeError::MissingPrefix), "{case}");
    }
}

#[test]
fn bad_encoding_is_reported() {
    for case in ["ticket-!!!!", "ticket-AAA=", "ticket-A", "ticket-AA+/", "ticket-AAAA AAAA", "ticket-\u{e9}"] {
        assert_eq!(Ticket::from_str(case), Err(DecodeError::BadEncoding), "{case}");
    }
}

#[test]
fn malformed_ticket_is_reported() {
    // valid base64 of bytes that are no ticket
    for case in ["ticket-", "ticket-AAAA", "ticket-AQID"] {
        assert_eq!(Ticket::from_str(case), Err(DecodeError::Malformed), "{case}");
    }
}

#[test]
fn malformed_ticket_bytes_are_refused() {
    let good = Ticket::new([1u8; 32], sample_endpoints()).to_vec();
    assert!(Ticket::from_bytes(&good).is_ok());
    for keep in 0..good.len() {
        assert_eq!(Ticket::from_bytes(&good[..keep]), Err(DecodeError::Malformed), "{keep}");
    }
    let mut longer = good.clone();
    longer.push(0);
    assert_eq!(Ticket::from_bytes(&longer), Err(DecodeError::Malformed));

    // a count that is written with more bytes than needed
    let mut padded = vec![1u8; 32];
    padded.extend_from_slice(&[0x80, 0x00]);
    assert_eq!(Ticket::from_bytes(&padded), Err(DecodeError::Malformed));

    // a count of peers that are not there
    let mut promised = vec![1u8; 32];
    promised.extend_from_slice(&[0xff, 0xff, 0xff, 0xff, 0xff, 0xff, 0xff, 0xff, 0xff, 0x01]);
    assert_eq!(Ticket::from_bytes(&promised), Err(DecodeError::Malformed));

    // an unknown kind of address
    let mut unknown = vec![1u8; 32];
    unknown.push(1);
    unknown.extend_from_slice(&[2u8; 32]);
    unknown.extend_from_slice(&[1, 2]);
    assert_eq!(Ticket::from_bytes(&unknown), Err(DecodeError::Malformed));

    // a relay URL that is not UTF-8
    let mut not_text = vec![1u8; 32];
    not_text.push(1);
    not_text.extend_from_slice(&[2u8; 32]);
    not_text.extend_from_slice(&[1, 0, 1, 0xff]);
    assert_eq!(Ticket::from_bytes(&not_text), Err(DecodeError::Malformed));

    // a port beyond 65535
    let mut too_high = vec![1u8; 32];
    too_high.push(1);
    too_high.extend_from_slice(&[2u8; 32]);
    too_high.extend_from_slice(&[1, 1, 0, 1, 2, 3, 4, 0x80, 0x80, 0x04]);
    assert_eq!(Ticket::from_bytes(&too_high), Err(DecodeError::Malformed));
}

#[test]
fn prefix_test() {
    assert_eq!(TICKET_PREFIX, "ticket-");
    assert!(is_ticket_prefixed("ticket-"));
    assert!(is_ticket_prefixed("ticket-abc"));
    assert!(!is_ticket_prefixed("ticket"));
    assert!(!is_ticket_prefixed(" ticket-abc"));
    assert!(!is_ticket_prefixed(""));
}

#[test]
fn binary_form_agrees_with_postcard() {
    // no endpoints
    let ticket = Ticket::new([7u8; 32], vec![]);
    let expected = postcard::to_stdvec(&([7u8; 32], Vec::<([u8; 32], Vec<u8>)>::new())).unwrap();
    assert_eq!(ticket.to_vec(), expected);

    // endpoints without addresses
    let ticket = Ticket::new(
        [7u8; 32],
        vec![
            PeerAddr { id: PeerId::from_bytes([8u8; 32]), addrs: vec![] },
            PeerAddr { id: PeerId::from_bytes([9u8; 32]), addrs: vec![] },
        ],
    );
    let expected = postcard::to_stdvec(&(
        [7u8; 32],
        vec![([8u8; 32], Vec::<u8>::new()), ([9u8; 32], Vec::<u8>::new())],
    ))
    .unwrap();
    assert_eq!(ticket.to_vec(), expected);

    // relay addresses: a zero byte, then the URL as a string
    let ticket = Ticket::new(
        [7u8; 32],
        vec![PeerAddr {
            id: PeerId::from_bytes([8u8; 32]),
            addrs: vec![
                TransportAddr::Relay("https://relay.example.org/".to_string()),
                TransportAddr::Relay("x".repeat(200)),
            ],
        }],
    );
    let expected = postcard::to_stdvec(&(
        [7u8; 32],
        vec![(
            [8u8; 32],
            vec![(0u8, "https://relay.example.org/".to_string()), (0u8, "x".repeat(200))],
        )],
    ))
    .unwrap();
    assert_eq!(ticket.to_vec(), expected);

    // socket addresses: a one byte, the version of the IP address, its bytes, and the port
    let v6_ip = [0x20u8, 0x01, 0x0d, 0xb8, 0, 0, 0, 0, 0, 0, 0, 0, 0, 0, 0, 1];
    let ticket = Ticket::new(
        [7u8; 32],
        vec![PeerAddr {
            id: PeerId::from_bytes([8u8; 32]),
            addrs: vec![
                TransportAddr::V4 { ip: [192, 168, 1, 20], port: 7777 },
                TransportAddr::V6 {
                    ip: [0x20, 0x01, 0x0d, 0xb8, 0, 0, 0, 0, 0, 0, 0, 0, 0, 0, 0, 1],
                    port: 65535,
                },
            ],
        }],
    );
    let expected = postcard::to_stdvec(&(
        [7u8; 32],
        1usize,
        [8u8; 32],
        2usize,
        (1u8, 0u8, [192u8, 168, 1, 20], 7777u16),
        (1u8, 1u8, v6_ip, 65535u16),
    ))
    .unwrap();
    assert_eq!(ticket.to_vec(), expected);
}
