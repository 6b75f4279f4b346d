//! The events that the backend hands to its consumer.

use crate::dice::{Dice, DiceView};
use vstd::prelude::*;

verus! {

/// Something for the application loop to act on.
#[derive(Clone, Debug, PartialEq, Eq)]
pub enum SystemEvent {
    /// An event to show to the user.
    Ui(ChatEvent),
    /// A request to send something to the room.
    Network(NetworkEvent),
}

/// A request to send something to the room.
#[derive(Clone, Debug, PartialEq, Eq)]
pub enum NetworkEvent {
    /// Announce this participant again, under the given name.
    BroadcastJoin(String),
}

/// An event to show to the user.
#[derive(Clone, Debug, PartialEq, Eq)]
pub enum ChatEvent {
    MessageReceived { author: String, content: String },
    MessageSent(String),
    PeerJoined(String),
    PeerLeft(String),
    PeerNameChange { old: String, new: String },
    SystemStatus(String),
    DiceRolled { result: u32, rolls: Vec<u32>, dice: Dice, author: Option<String> },
    Error(String),
    Redraw,
}

/// The mathematical content of a [`ChatEvent`].
pub enum ChatEventView {
    MessageReceived { author: Seq<char>, content: Seq<char> },
    MessageSent(Seq<char>),
    PeerJoined(Seq<char>),
    PeerLeft(Seq<char>),
    PeerNameChange { old: Seq<char>, new: Seq<char> },
    SystemStatus(Seq<char>),
    DiceRolled { result: u32, rolls: Seq<u32>, dice: DiceView, author: Option<Seq<char>> },
    Error(Seq<char>),
    Redraw,
}

/// The mathematical content of a [`NetworkEvent`].
pub enum NetworkEventView {
    BroadcastJoin(Seq<char>),
}

/// The mathematical content of a [`SystemEvent`].
pub enum SystemEventView {
    Ui(ChatEventView),
    Network(NetworkEventView),
}

impl View for ChatEvent {
    type V = ChatEventView;

    open spec fn view(&self) -> ChatEventView {
        match *self {
            ChatEvent::MessageReceived { author, content } => ChatEventView::MessageReceived {
                author: author@,
                content: content@,
            },
            ChatEvent::MessageSent(text) => ChatEventView::MessageSent(text@),
            ChatEvent::PeerJoined(name) => ChatEventView::PeerJoined(name@),
            ChatEvent::PeerLeft(name) => ChatEventView::PeerLeft(name@),
            ChatEvent::PeerNameChange { old, new } => ChatEventView::PeerNameChange {
                old: old@,
                new: new@,
            },
            ChatEvent::SystemStatus(text) => ChatEventView::SystemStatus(text@),
            ChatEvent::DiceRolled { result, rolls, dice, author } => ChatEventView::DiceRolled {
                result,
                rolls: rolls@,
                dice: dice@,
                author: match author {
                    Some(name) => Some(name@),
                    None => None,
                },
            },
            ChatEvent::Error(text) => ChatEventView::Error(text@),
            ChatEvent::Redraw => ChatEventView::Redraw,
        }
    }
}

impl View for NetworkEvent {
    type V = NetworkEventView;

    open spec fn view(&self) -> NetworkEventView {
        match *self {
            NetworkEvent::BroadcastJoin(name) => NetworkEventView::BroadcastJoin(name@),
        }
    }
}

impl View for SystemEvent {
    type V = SystemEventView;

    open spec fn view(&self) -> SystemEventView {
        match *self {
            SystemEvent::Ui(event) => SystemEventView::Ui(event@),
            SystemEvent::Network(event) => SystemEventView::Network(event@),
        }
    }
}

/// The contents of a list of events, in order.
pub open spec fn events_view(events: Seq<SystemEvent>) -> Seq<SystemEventView> {
    events.map_values(|e: SystemEvent| e@)
}

/// The event that shows a status line.
pub open spec fn status_event(text: Seq<char>) -> SystemEventView {
    SystemEventView::Ui(ChatEventView::SystemStatus(text))
}

/// The event that shows an error line.
pub open spec fn error_event(text: Seq<char>) -> SystemEventView {
    SystemEventView::Ui(ChatEventView::Error(text))
}

} // verus!
