//! The configuration of a session: who joins which room, with which keys.

use crate::cli::{Cli, CliView};
use crate::message::DecodeError;
use crate::secrets::{
    argon2id_key, blake3_digest, derive_room_key, random_bytes, MAX_ARGON2_INPUT_LEN,
};
use crate::ticket::{
    endpoints_view, ticket_parsed, PeerAddr, PeerAddrView, Ticket, TicketView,
};
use vstd::prelude::*;
use vstd::utf8::encode_utf8;

verus! {

/// The configuration of a session.
#[derive(Clone, Debug, PartialEq, Eq)]
pub struct ChatConfig {
    pub username: String,
    pub secret_key: [u8; 32],
    pub topic: [u8; 32],
    pub bootstrap_nodes: Vec<PeerAddr>,
    pub symmetric_key: [u8; 32],
    pub is_host: bool,
}

/// The mathematical content of a [`ChatConfig`].
pub struct ChatConfigView {
    pub username: Seq<char>,
    pub secret_key: Seq<u8>,
    pub topic: Seq<u8>,
    pub bootstrap_nodes: Seq<PeerAddrView>,
    pub symmetric_key: Seq<u8>,
    pub is_host: bool,
}

impl View for ChatConfig {
    type V = ChatConfigView;

    open spec fn view(&self) -> ChatConfigView {
        ChatConfigView {
            username: self.username@,
            secret_key: self.secret_key@,
            topic: self.topic@,
            bootstrap_nodes: endpoints_view(self.bootstrap_nodes@),
            symmetric_key: self.symmetric_key@,
            is_host: self.is_host,
        }
    }
}

/// Why no configuration could be made.
#[derive(Clone, Copy, Debug, PartialEq, Eq)]
pub enum ConfigError {
    /// The ticket could not be read.
    Ticket(DecodeError),
    /// The password is too long to derive a key from.
    PasswordTooLong,
}

/// The symmetric key of the room that the arguments name.
pub open spec fn room_key(cli: CliView) -> Seq<u8> {
    argon2id_key(encode_utf8(cli.password), blake3_digest(encode_utf8(cli.room)))
}

/// Whether a text can be read as a ticket.
pub open spec fn reads_as_ticket(text: Seq<char>) -> bool {
    exists|t: TicketView| #[trigger] ticket_parsed(text, Ok(t))
}

/// What the configuration for the given arguments is.
///
/// Without a ticket this participant hosts a new room under the fresh
/// topic, with nobody to connect to. With a ticket the topic and the peers
/// are those of the ticket, and a ticket that cannot be read is an error.
/// After that, a password that is too long to hash is an error.
pub open spec fn assembled(
    cli: CliView,
    secret_key: Seq<u8>,
    fresh_topic: Seq<u8>,
    r: Result<ChatConfigView, ConfigError>,
) -> bool {
    let hashable = encode_utf8(cli.password).len() <= MAX_ARGON2_INPUT_LEN;
    match cli.ticket {
        None => if hashable {
            r == Ok::<ChatConfigView, ConfigError>(
                ChatConfigView {
                    username: cli.username,
                    secret_key,
                    topic: fresh_topic,
                    bootstrap_nodes: Seq::empty(),
                    symmetric_key: room_key(cli),
                    is_host: true,
                },
            )
        } else {
            r == Err::<ChatConfigView, ConfigError>(ConfigError::PasswordTooLong)
        },
        Some(text) => match r {
            Ok(config) => {
                &&& hashable
                &&& ticket_parsed(
                    text,
                    Ok(TicketView { topic: config.topic, endpoints: config.bootstrap_nodes }),
                )
                &&& config == ChatConfigView {
                    username: cli.username,
                    secret_key,
                    topic: config.topic,
                    bootstrap_nodes: config.bootstrap_nodes,
                    symmetric_key: room_key(cli),
                    is_host: false,
                }
            },
            Err(ConfigError::Ticket(e)) => ticket_parsed(text, Err(e)),
            Err(ConfigError::PasswordTooLong) => !hashable && reads_as_ticket(text),
        },
    }
}

/// The view of the result of making a configuration.
pub open spec fn config_result_view(r: Result<ChatConfig, ConfigError>) -> Result<
    ChatConfigView,
    ConfigError,
> {
    match r {
        Ok(config) => Ok(config@),
        Err(e) => Err(e),
    }
}

impl ChatConfig {
    /// The configuration for the given arguments, the participant's secret
    /// key, and the topic to use for a new room.
    pub fn assemble(cli: Cli, secret_key: [u8; 32], fresh_topic: [u8; 32]) -> (r: Result<
        ChatConfig,
        ConfigError,
    >)
        ensures
            assembled(cli@, secret_key@, fresh_topic@, config_result_view(r)),
    {
        let (topic, bootstrap_nodes, is_host) = match &cli.ticket {
            None => {
                let nodes: Vec<PeerAddr> = Vec::new();
                proof {
                    assert(endpoints_view(nodes@) =~= Seq::<PeerAddrView>::empty());
                }
                (fresh_topic, nodes, true)
            },
            Some(text) => match Ticket::from_str(text.as_str()) {
                Ok(ticket) => {
                    let (topic, endpoints) = ticket.into_tuple();
                    (topic, endpoints, false)
                },
                Err(e) => {
                    return Err(ConfigError::Ticket(e));
                },
            },
        };
        let symmetric_key = match derive_room_key(cli.password.as_str(), cli.room.as_str()) {
            Some(key) => key,
            None => {
                proof {
                    if cli.ticket is Some {
                        assert(ticket_parsed(
                            cli.ticket->Some_0@,
                            Ok(TicketView { topic: topic@, endpoints: endpoints_view(bootstrap_nodes@) }),
                        ));
                        assert(reads_as_ticket(cli.ticket->Some_0@));
                    }
                }
                return Err(ConfigError::PasswordTooLong);
            },
        };
        Ok(
            ChatConfig {
                username: cli.username,
                secret_key,
                topic,
                bootstrap_nodes,
                symmetric_key,
                is_host,
            },
        )
    }

    /// The configuration for the given arguments and the participant's
    /// secret key. A new room gets a random topic.
    pub fn from_cli(cli: Cli, secret_key: [u8; 32]) -> (r: Result<ChatConfig, ConfigError>)
        ensures
            exists|fresh_topic: Seq<u8>|
                fresh_topic.len() == 32 && #[trigger] assembled(
                    cli@,
                    secret_key@,
                    fresh_topic,
                    config_result_view(r),
                ),
    {
        let fresh_topic = random_bytes();
        let r = ChatConfig::assemble(cli, secret_key, fresh_topic);
        proof {
            assert(assembled(cli@, secret_key@, fresh_topic@, config_result_view(r)));
        }
        r
    }
}

} // verus!
