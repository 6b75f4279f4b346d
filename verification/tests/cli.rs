use cantrip::chat::config::{ChatConfig, ConfigError};
use cantrip::cli::{is_long_enough, Args, Cli, CliError, CliStep, Command};
use cantrip::message::DecodeError;
use cantrip::peer::PeerId;
use cantrip::secrets::{derive_room_key, hash_password, plan_secret_key, room_hash, SecretKeyPlan, StoredSecret};
use cantrip::ticket::{PeerAddr, Ticket, TransportAddr};

fn args(username: Option<&str>, room: Option<&str>, command: Command) -> Args {
    Args {
        username: username.map(str::to_string),
        room: room.map(str::to_string),
        command,
    }
}

fn join(ticket: Option<&str>) -> Command {
    Command::Join { ticket: ticket.map(str::to_string) }
}

#[test]
fn missing_arguments_are_asked_for_in_order() {
    assert_eq!(Cli::parse(&args(None, None, Command::Open), None), CliStep::AskUsername);
    assert_eq!(Cli::parse(&args(None, Some("x"), join(Some("bad"))), None), CliStep::AskUsername);
    assert_eq!(Cli::parse(&args(Some("alice"), None, join(Some("bad"))), None), CliStep::AskRoom);
    assert_eq!(Cli::parse(&args(Some("alice"), Some("lobby"), join(None)), None), CliStep::AskTicket);
    assert_eq!(Cli::parse(&args(Some("alice"), Some("lobby"), join(None)), Some("pw")), CliStep::AskTicket);
    assert_eq!(Cli::parse(&args(Some("alice"), Some("lobby"), Command::Open), None), CliStep::AskPassword);
    assert_eq!(
        Cli::parse(&args(Some("alice"), Some("lobby"), join(Some("ticket-abc"))), None),
        CliStep::AskPassword
    );
}

#[test]
fn unacceptable_arguments_are_refused_in_order() {
    assert_eq!(
        Cli::parse(&args(Some("bob"), Some("x"), join(Some("bad"))), Some("pw")),
        CliStep::Failed(CliError::UsernameTooShort)
    );
    assert_eq!(
        Cli::parse(&args(Some("alice"), Some("abc"), join(Some("bad"))), Some("pw")),
        CliStep::Failed(CliError::RoomTooShort)
    );
    assert_eq!(
        Cli::parse(&args(Some("alice"), Some("lobby"), join(Some("bad"))), Some("pw")),
        CliStep::Failed(CliError::InvalidTicket)
    );
    // a short user name is refused before the room is asked for
    assert_eq!(
        Cli::parse(&args(Some(""), None, Command::Open), None),
        CliStep::Failed(CliError::UsernameTooShort)
    );
}

#[test]
fn complete_arguments_are_done() {
    assert_eq!(
        Cli::parse(&args(Some("alice"), Some("lobby"), Command::Open), Some("secret")),
        CliStep::Done(Cli {
            username: "alice".to_string(),
            room: "lobby".to_string(),
            password: "secret".to_string(),
            ticket: None,
        })
    );
    assert_eq!(
        Cli::parse(&args(Some("alice"), Some("lobby"), join(Some("ticket-abc"))), Some("")),
        CliStep::Done(Cli {
            username: "alice".to_string(),
            room: "lobby".to_string(),
            password: String::new(),
            ticket: Some("ticket-abc".to_string()),
        })
    );
}

#[test]
fn names_need_more_than_three_bytes() {
    assert!(!is_long_enough(""));
    assert!(!is_long_enough("abc"));
    assert!(is_long_enough("abcd"));
    // two characters of two bytes each
    assert!(is_long_enough("\u{e9}\u{e9}"));
    assert!(!is_long_enough("\u{e9}a"));
}

#[test]
fn cli_error_texts() {
    assert_eq!(CliError::UsernameTooShort.message(), "Username is too short");
    assert_eq!(CliError::RoomTooShort.message(), "Topic name is too short");
    assert_eq!(CliError::InvalidTicket.message(), "Invalid ticket");
}

fn cli(ticket: Option<String>) -> Cli {
    Cli {
        username: "alice".to_string(),
        room: "lobby".to_string(),
        password: "secret".to_string(),
        ticket,
    }
}

#[test]
fn room_hash_is_blake3() {
    assert_eq!(room_hash("lobby"), *blake3::hash(b"lobby").as_bytes());
    assert_eq!(
        PeerId::from_bytes(room_hash("")).to_hex(),
        "af1349b9f5f9a1a6a0404dea36dcc9499bcb25c9adc112b7cc9a93cae41f3262"
    );
}

#[test]
fn room_key_is_argon2id_of_password_and_room_hash() {
    let salt = room_hash("lobby");
    let key = hash_password("secret", &salt);
    let mut expected = [0u8; 32];
    argon2::Argon2::new(
        argon2::Algorithm::Argon2id,
        argon2::Version::V0x13,
        argon2::Params::default(),
    )
    .hash_password_into(b"secret", &salt, &mut expected)
    .unwrap();
    assert_eq!(key, expected);
    assert_ne!(key, salt);
    assert_ne!(key, [0u8; 32]);
    assert_eq!(derive_room_key("secret", "lobby"), Some(key));
    assert_ne!(derive_room_key("secret", "lobby2"), Some(key));
    assert_ne!(derive_room_key("secret2", "lobby"), Some(key));
    assert_eq!(derive_room_key("secret", "lobby"), derive_room_key("secret", "lobby"));
}

#[test]
fn opening_a_room_makes_a_host() {
    let config = ChatConfig::assemble(cli(None), [1u8; 32], [2u8; 32]).unwrap();
    assert_eq!(
        config,
        ChatConfig {
            username: "alice".to_string(),
            secret_key: [1u8; 32],
            topic: [2u8; 32],
            bootstrap_nodes: vec![],
            symmetric_key: derive_room_key("secret", "lobby").unwrap(),
            is_host: true,
        }
    );
}

#[test]
fn joining_takes_topic_and_peers_from_the_ticket() {
    let peers = vec![PeerAddr {
        id: PeerId::from_bytes([9u8; 32]),
        addrs: vec![TransportAddr::V4 { ip: [10, 0, 0, 1], port: 4000 }],
    }];
    let ticket = Ticket::new([7u8; 32], peers.clone()).to_string();
    let config = ChatConfig::assemble(cli(Some(ticket)), [1u8; 32], [2u8; 32]).unwrap();
    assert_eq!(config.topic, [7u8; 32]);
    assert_eq!(config.bootstrap_nodes, peers);
    assert!(!config.is_host);
    assert_eq!(config.symmetric_key, derive_room_key("secret", "lobby").unwrap());
    assert_eq!(config.secret_key, [1u8; 32]);
    assert_eq!(config.username, "alice");
}

#[test]
fn a_bad_ticket_fails_the_configuration() {
    for (text, error) in [
        ("nothing", DecodeError::MissingPrefix),
        ("ticket-***", DecodeError::BadEncoding),
        ("ticket-AAAA", DecodeError::Malformed),
    ] {
        assert_eq!(
            ChatConfig::assemble(cli(Some(text.to_string())), [1u8; 32], [2u8; 32]),
            Err(ConfigError::Ticket(error))
        );
        assert_eq!(
            ChatConfig::from_cli(cli(Some(text.to_string())), [1u8; 32]),
            Err(ConfigError::Ticket(error))
        );
    }
}

#[test]
fn new_rooms_get_different_topics() {
    let first = ChatConfig::from_cli(cli(None), [1u8; 32]).unwrap();
    let second = ChatConfig::from_cli(cli(None), [1u8; 32]).unwrap();
    assert!(first.is_host && second.is_host);
    assert_ne!(first.topic, second.topic);
    assert_eq!(first.symmetric_key, second.symmetric_key);
}

#[test]
fn secret_key_plan() {
    let fresh = [3u8; 32];
    assert_eq!(plan_secret_key(StoredSecret::Missing, fresh), SecretKeyPlan::StoreAndUse(fresh));
    assert_eq!(
        plan_secret_key(StoredSecret::Found(vec![8u8; 32]), fresh),
        SecretKeyPlan::Use([8u8; 32])
    );
    for len in [0usize, 31, 33, 64] {
        assert_eq!(plan_secret_key(StoredSecret::Found(vec![8u8; len]), fresh), SecretKeyPlan::Invalid);
    }
}
