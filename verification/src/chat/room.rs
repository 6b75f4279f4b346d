//! Joining a room: what is announced on the way, and what the room asks of
//! this participant afterwards.

use crate::chat::client::{broadcast_result, ChatClient};
use crate::chat::config::ChatConfig;
use crate::events::{ChatEvent, ChatEventView};
use crate::message::{MessageBodyView, SealError};
use crate::peer::PeerId;
use crate::text::{ascii_string, chars_of, dec_digits, write_nat};
use crate::ticket::{endpoints_view, PeerAddr, PeerAddrView, Ticket, TicketView};
use vstd::prelude::*;
use vstd::string::StringExecFns;

verus! {

/// What the backend asks of the room's sending side.
#[derive(Clone, Copy, Debug, PartialEq, Eq)]
pub enum ChatCommand {
    /// Announce this participant again.
    BroadcastJoin,
}

/// The joining of a room.
pub struct ChatRoom {}

/// The notice that shows the ticket of the room.
pub open spec fn ticket_notice(ticket_text: Seq<char>) -> Seq<char> {
    "ticket to join: "@ + ticket_text
}

/// The notice of what the connection waits for: for others to join, where
/// the room is new, and else for the peers of the ticket.
pub open spec fn peers_notice(peers: nat) -> Seq<char> {
    if peers == 0 {
        "waiting for endpoints to join us..."@
    } else {
        "trying to connect to "@ + chars_of(dec_digits(peers)) + " endpoints..."@
    }
}

/// The notice that the room is joined.
pub open spec fn connected_notice() -> Seq<char> {
    "connected!"@
}

/// The notice that the announcement could not be sent.
pub open spec fn welcome_failed_notice(complaint: Seq<char>) -> Seq<char> {
    "Failed to broadcast a welcome message: "@ + complaint
}

/// The identities of the peers of a list, in order.
pub open spec fn ids_of(peers: Seq<PeerAddrView>) -> Seq<Seq<u8>> {
    peers.map_values(|p: PeerAddrView| p.id)
}

/// The views of the identities of a list, in order.
pub open spec fn ids_view(ids: Seq<PeerId>) -> Seq<Seq<u8>> {
    ids.map_values(|id: PeerId| id@)
}

impl ChatRoom {
    /// The ticket that lets others join through this participant.
    pub fn own_ticket(config: &ChatConfig, own: PeerAddr) -> (ticket: Ticket)
        ensures
            ticket@ == (TicketView { topic: config@.topic, endpoints: seq![own@] }),
    {
        let mut endpoints: Vec<PeerAddr> = Vec::new();
        endpoints.push(own);
        proof {
            assert(endpoints_view(endpoints@) =~= seq![own@]);
        }
        Ticket::new(config.topic, endpoints)
    }

    /// The identities of the peers to connect to.
    pub fn bootstrap_ids(nodes: &Vec<PeerAddr>) -> (ids: Vec<PeerId>)
        ensures
            ids_view(ids@) == ids_of(endpoints_view(nodes@)),
    {
        let mut ids: Vec<PeerId> = Vec::new();
        let mut i: usize = 0;
        while i < nodes.len()
            invariant
                i <= nodes@.len(),
                ids@.len() == i,
                forall|k: int| 0 <= k < i ==> (#[trigger] ids@[k])@ == nodes@[k].id@,
            decreases nodes@.len() - i,
        {
            ids.push(nodes[i].id);
            i += 1;
        }
        proof {
            assert(ids_view(ids@) =~= ids_of(endpoints_view(nodes@)));
        }
        ids
    }

    /// The notices before the room is joined: the ticket, and what the
    /// connection waits for.
    pub fn connect_notices(ticket_text: &str, peers: usize) -> (notices: Vec<ChatEvent>)
        ensures
            notices@.len() == 2,
            notices@[0]@ == ChatEventView::SystemStatus(ticket_notice(ticket_text@)),
            notices@[1]@ == ChatEventView::SystemStatus(peers_notice(peers as nat)),
    {
        let mut notices: Vec<ChatEvent> = Vec::new();
        let mut first = "ticket to join: ".to_owned();
        first.append(ticket_text);
        notices.push(ChatEvent::SystemStatus(first));
        if peers == 0 {
            notices.push(ChatEvent::SystemStatus("waiting for endpoints to join us...".to_owned()));
        } else {
            let mut digits: Vec<u8> = Vec::new();
            write_nat(&mut digits, peers as u64);
            let count = ascii_string(digits.as_slice());
            let mut second = "trying to connect to ".to_owned();
            second.append(count.as_str());
            second.append(" endpoints...");
            proof {
                assert(digits@ =~= dec_digits(peers as nat));
            }
            notices.push(ChatEvent::SystemStatus(second));
        }
        notices
    }

    /// The notice that the room is joined.
    pub fn connected() -> (notice: ChatEvent)
        ensures
            notice@ == ChatEventView::SystemStatus(connected_notice()),
    {
        ChatEvent::SystemStatus("connected!".to_owned())
    }

    /// The bytes to broadcast for a command of the backend: the
    /// announcement of this participant under its name.
    pub fn handle_command(client: &ChatClient, username: &str, command: ChatCommand) -> (r: Result<
        Vec<u8>,
        SealError,
    >)
        ensures
            broadcast_result(
                client@,
                MessageBodyView::Joined { from: client@.id, name: username@ },
                r,
            ),
    {
        match command {
            ChatCommand::BroadcastJoin => client.broadcast_join(username.to_owned()),
        }
    }

    /// The notice that the announcement could not be sent.
    pub fn welcome_failed(complaint: &str) -> (notice: ChatEvent)
        ensures
            notice@ == ChatEventView::Error(welcome_failed_notice(complaint@)),
    {
        let mut text = "Failed to broadcast a welcome message: ".to_owned();
        text.append(complaint);
        ChatEvent::Error(text)
    }
}

} // verus!
