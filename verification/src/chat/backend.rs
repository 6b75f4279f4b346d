//! The chat backend: what a delivery from the room does to the peer
//! registry and the quarantine, and which events it produces.

use crate::chat::state::{registered_name, resolved_name, ChatState, Quarantine};
use crate::events::{
    error_event, events_view, status_event, ChatEvent, ChatEventView, NetworkEvent,
    NetworkEventView, SystemEvent, SystemEventView,
};
use crate::message::{
    body_result_view, decode_error_text, decrypt_outcome, envelope_wire, is_envelope_wire,
    DecodeError, Message, MessageBody, MessageBodyView, MessageView, NONCE_LEN,
};
use crate::peer::{short_text, PeerId};
use vstd::prelude::*;
use vstd::string::StringExecFns;

verus! {

/// Where the backend is in its life.
#[derive(Clone, Copy, Debug, PartialEq, Eq)]
pub enum BackendPhase {
    /// Deliveries are processed.
    Running,
    /// Shutdown was asked for, or a channel closed: the transport is being
    /// released.
    Draining,
    /// Nothing more will happen.
    Terminated,
}

/// The mathematical content of a [`ChatBackend`].
pub struct ChatBackendView {
    /// The room's symmetric key.
    pub key: Seq<u8>,
    /// The name under which this participant announces itself.
    pub username: Seq<char>,
    /// The peer registry.
    pub users: Map<Seq<u8>, Seq<char>>,
    /// The peers whose traffic currently fails to decrypt.
    pub failing: Set<Seq<u8>>,
    /// Where the backend is in its life.
    pub phase: BackendPhase,
}

/// One delivery from the room: opaque bytes and the peer that the
/// transport received them from.
#[derive(Clone, Debug, PartialEq, Eq)]
pub struct Delivery {
    pub sender: PeerId,
    pub content: Vec<u8>,
}

/// What can happen to a backend.
#[derive(Clone, Debug, PartialEq, Eq)]
pub enum BackendInput {
    /// Shutdown was asked for.
    Shutdown,
    /// The room delivered bytes.
    Delivery(Delivery),
    /// The transport reported something that is no delivery.
    OtherEvent,
    /// The stream of deliveries ended.
    StreamEnded,
    /// The consumer of the events is gone.
    ConsumerClosed,
    /// The transport was released: cleanly, or with the given complaint.
    Released(Option<String>),
}

/// What the backend asks of the loop that drives it.
#[derive(Clone, Debug, PartialEq, Eq)]
pub enum BackendAction {
    /// Hand the event to the consumer.
    Emit(SystemEvent),
    /// Release the transport, and report back how that went.
    ReleaseTransport,
}

/// The mathematical content of a [`BackendInput`].
pub enum BackendInputView {
    Shutdown,
    Delivery { sender: Seq<u8>, content: Seq<u8> },
    OtherEvent,
    StreamEnded,
    ConsumerClosed,
    Released(Option<Seq<char>>),
}

/// The mathematical content of a [`BackendAction`].
pub enum BackendActionView {
    Emit(SystemEventView),
    ReleaseTransport,
}

impl View for BackendInput {
    type V = BackendInputView;

    open spec fn view(&self) -> BackendInputView {
        match *self {
            BackendInput::Shutdown => BackendInputView::Shutdown,
            BackendInput::Delivery(delivery) => BackendInputView::Delivery {
                sender: delivery.sender@,
                content: delivery.content@,
            },
            BackendInput::OtherEvent => BackendInputView::OtherEvent,
            BackendInput::StreamEnded => BackendInputView::StreamEnded,
            BackendInput::ConsumerClosed => BackendInputView::ConsumerClosed,
            BackendInput::Released(complaint) => BackendInputView::Released(
                match complaint {
                    Some(text) => Some(text@),
                    None => None,
                },
            ),
        }
    }
}

impl View for BackendAction {
    type V = BackendActionView;

    open spec fn view(&self) -> BackendActionView {
        match *self {
            BackendAction::Emit(event) => BackendActionView::Emit(event@),
            BackendAction::ReleaseTransport => BackendActionView::ReleaseTransport,
        }
    }
}

/// The contents of a list of actions, in order.
pub open spec fn actions_view(actions: Seq<BackendAction>) -> Seq<BackendActionView> {
    actions.map_values(|a: BackendAction| a@)
}

/// The actions that hand the given events to the consumer, in order.
pub open spec fn emit_all(events: Seq<SystemEventView>) -> Seq<BackendActionView> {
    events.map_values(|e: SystemEventView| BackendActionView::Emit(e))
}

/// The notice that a peer's traffic decrypts again.
pub open spec fn recovered_text(peer: Seq<u8>) -> Seq<char> {
    "Encryption recovered for peer "@ + short_text(peer)
}

/// The notice that a peer's traffic does not decrypt.
pub open spec fn failed_text(peer: Seq<u8>) -> Seq<char> {
    "Decryption failed for peer "@ + short_text(peer) + ": "@ + decode_error_text(
        DecodeError::AuthenticationOrFormat,
    ) + ". Usually caused by password or room name mismatch."@
}

/// The notice that a delivery was no envelope.
pub open spec fn malformed_text() -> Seq<char> {
    "Failed to process event: "@ + decode_error_text(DecodeError::Malformed)
}

/// The notice that this participant left.
pub open spec fn left_text() -> Seq<char> {
    "You left the chat"@
}

/// The notice that the transport complained when it was released.
pub open spec fn release_failed_text(complaint: Seq<char>) -> Seq<char> {
    "Error during shutdown: "@ + complaint
}

/// The backend after a delivery from `sender` was decrypted with the given
/// outcome: a success clears the sender's failing mark and dispatches the
/// message, a failure sets the mark.
pub open spec fn decoded_state(
    before: ChatBackendView,
    sender: Seq<u8>,
    outcome: Result<MessageBodyView, DecodeError>,
) -> ChatBackendView {
    match outcome {
        Ok(body) => ChatBackendView {
            users: message_users(before.users, body),
            failing: before.failing.remove(sender),
            ..before
        },
        Err(_) => ChatBackendView { failing: before.failing.insert(sender), ..before },
    }
}

/// The events of a delivery from `sender` that was decrypted with the
/// given outcome. A success of a failing sender is announced as a recovery
/// before the message is dispatched; a failure is announced only of a
/// sender that was not failing.
pub open spec fn decoded_events(
    before: ChatBackendView,
    sender: Seq<u8>,
    outcome: Result<MessageBodyView, DecodeError>,
) -> Seq<SystemEventView> {
    match outcome {
        Ok(body) => (if before.failing.contains(sender) {
            seq![status_event(recovered_text(sender))]
        } else {
            seq![]
        }) + message_events(before.users, before.username, body),
        Err(_) => if before.failing.contains(sender) {
            seq![]
        } else {
            seq![error_event(failed_text(sender))]
        },
    }
}

/// What processing one delivery does. Bytes that are no envelope change
/// nothing and give one processing error. An envelope is decrypted under
/// the room's key, and the outcome decides the new state and the events.
pub open spec fn delivery_handled(
    before: ChatBackendView,
    sender: Seq<u8>,
    content: Seq<u8>,
    after: ChatBackendView,
    events: Seq<SystemEventView>,
) -> bool {
    if is_envelope_wire(content) {
        exists|m: MessageView, outcome: Result<MessageBodyView, DecodeError>|
            {
                &&& m.nonce.len() == NONCE_LEN
                &&& #[trigger] envelope_wire(m) == content
                &&& #[trigger] decrypt_outcome(m, before.key, outcome)
                &&& after == decoded_state(before, sender, outcome)
                &&& events == decoded_events(before, sender, outcome)
            }
    } else {
        after == before && events == seq![error_event(malformed_text())]
    }
}

/// A step that processes a delivery: the actions hand on the events of the
/// delivery, in order.
pub open spec fn delivery_stepped(
    before: ChatBackendView,
    sender: Seq<u8>,
    content: Seq<u8>,
    after: ChatBackendView,
    actions: Seq<BackendActionView>,
) -> bool {
    exists|events: Seq<SystemEventView>| #[trigger]
        delivery_handled(before, sender, content, after, events) && actions == emit_all(events)
}

/// What one step of the backend does.
///
/// While running: a shutdown, the end of the deliveries and the loss of the
/// consumer start the drain, with a last notice to the consumer and the
/// release of the transport; a delivery is processed; anything else is
/// passed over. While draining: the report of the release ends the
/// backend, with an error notice where the transport complained; nothing
/// else is acted on. A terminated backend does nothing.
pub open spec fn stepped(
    before: ChatBackendView,
    input: BackendInputView,
    after: ChatBackendView,
    actions: Seq<BackendActionView>,
) -> bool {
    match before.phase {
        BackendPhase::Running => match input {
            BackendInputView::Shutdown
            | BackendInputView::StreamEnded
            | BackendInputView::ConsumerClosed => {
                &&& after == ChatBackendView { phase: BackendPhase::Draining, ..before }
                &&& actions == seq![
                    BackendActionView::Emit(status_event(left_text())),
                    BackendActionView::ReleaseTransport,
                ]
            },
            BackendInputView::Delivery { sender, content } => delivery_stepped(
                before,
                sender,
                content,
                after,
                actions,
            ),
            BackendInputView::OtherEvent | BackendInputView::Released(_) => after == before
                && actions == Seq::<BackendActionView>::empty(),
        },
        BackendPhase::Draining => match input {
            BackendInputView::Released(None) => {
                &&& after == ChatBackendView { phase: BackendPhase::Terminated, ..before }
                &&& actions == Seq::<BackendActionView>::empty()
            },
            BackendInputView::Released(Some(complaint)) => {
                &&& after == ChatBackendView { phase: BackendPhase::Terminated, ..before }
                &&& actions == seq![
                    BackendActionView::Emit(error_event(release_failed_text(complaint))),
                ]
            },
            _ => after == before && actions == Seq::<BackendActionView>::empty(),
        },
        BackendPhase::Terminated => after == before && actions == Seq::<BackendActionView>::empty(),
    }
}

/// How far a backend is in its life.
pub open spec fn phase_rank(phase: BackendPhase) -> nat {
    match phase {
        BackendPhase::Running => 0,
        BackendPhase::Draining => 1,
        BackendPhase::Terminated => 2,
    }
}

/// A backend never goes back in its life, and it keeps its key and its own
/// name for good; only a running backend changes its registry or its
/// quarantine, and a terminated backend asks for nothing.
pub proof fn lemma_step_is_monotone(
    before: ChatBackendView,
    input: BackendInputView,
    after: ChatBackendView,
    actions: Seq<BackendActionView>,
)
    requires
        stepped(before, input, after, actions),
    ensures
        phase_rank(before.phase) <= phase_rank(after.phase),
        after.key == before.key,
        after.username == before.username,
        before.phase != BackendPhase::Running ==> after.users == before.users && after.failing
            == before.failing,
        before.phase == BackendPhase::Terminated ==> after == before && actions.len() == 0,
{
    if before.phase == BackendPhase::Running {
        if let BackendInputView::Delivery { sender, content } = input {
            let events = choose|events: Seq<SystemEventView>| #[trigger]
                delivery_handled(before, sender, content, after, events) && actions == emit_all(
                    events,
                );
            assert(delivery_handled(before, sender, content, after, events));
        }
    }
}

/// A delivery changes the quarantine of its sender only, and by the
/// outcome alone: whatever the bytes are, every other peer keeps its mark.
pub proof fn lemma_delivery_marks_sender_only(
    before: ChatBackendView,
    sender: Seq<u8>,
    content: Seq<u8>,
    after: ChatBackendView,
    events: Seq<SystemEventView>,
    other: Seq<u8>,
)
    requires
        delivery_handled(before, sender, content, after, events),
        other != sender,
    ensures
        after.failing.contains(other) == before.failing.contains(other),
{
}

/// The backend of one joined room.
pub struct ChatBackend {
    key: [u8; 32],
    state: ChatState,
    username: String,
    bad_actors: Quarantine,
    phase: BackendPhase,
}

impl View for ChatBackend {
    type V = ChatBackendView;

    closed spec fn view(&self) -> ChatBackendView {
        ChatBackendView {
            key: self.key@,
            username: self.username@,
            users: self.state@,
            failing: self.bad_actors@,
            phase: self.phase,
        }
    }
}

/// The registry after a message was dispatched.
pub open spec fn message_users(users: Map<Seq<u8>, Seq<char>>, body: MessageBodyView) -> Map<
    Seq<u8>,
    Seq<char>,
> {
    match body {
        MessageBodyView::Joined { from, name } => users.insert(from, name),
        MessageBodyView::Text { .. } => users,
        MessageBodyView::Left { from } => users.remove(from),
        MessageBodyView::DiceRoll { .. } => users,
    }
}

/// The events that dispatching a message produces: a new peer is announced
/// and answered with this participant's own announcement, a rename is
/// reported, an unchanged name is passed over; a text and a dice roll are
/// attributed to the registered name; a departure is reported only of a
/// registered peer.
pub open spec fn message_events(
    users: Map<Seq<u8>, Seq<char>>,
    username: Seq<char>,
    body: MessageBodyView,
) -> Seq<SystemEventView> {
    match body {
        MessageBodyView::Joined { from, name } => match registered_name(users, from) {
            None => seq![
                SystemEventView::Ui(ChatEventView::PeerJoined(name)),
                SystemEventView::Network(NetworkEventView::BroadcastJoin(username)),
            ],
            Some(previous) => if previous != name {
                seq![SystemEventView::Ui(ChatEventView::PeerNameChange { old: previous, new: name })]
            } else {
                seq![]
            },
        },
        MessageBodyView::Text { from, text } => seq![
            SystemEventView::Ui(
                ChatEventView::MessageReceived { author: resolved_name(users, from), content: text },
            ),
        ],
        MessageBodyView::Left { from } => match registered_name(users, from) {
            Some(name) => seq![SystemEventView::Ui(ChatEventView::PeerLeft(name))],
            None => seq![],
        },
        MessageBodyView::DiceRoll { from, result, dice, rolls } => seq![
            SystemEventView::Ui(
                ChatEventView::DiceRolled {
                    result,
                    rolls,
                    dice,
                    author: Some(resolved_name(users, from)),
                },
            ),
        ],
    }
}

impl ChatBackend {
    /// A running backend for the room with the given key, with an empty
    /// registry and nobody in quarantine.
    pub fn new(key: [u8; 32], username: String) -> (backend: ChatBackend)
        ensures
            backend@ == (ChatBackendView {
                key: key@,
                username: username@,
                users: Map::<Seq<u8>, Seq<char>>::empty(),
                failing: Set::<Seq<u8>>::empty(),
                phase: BackendPhase::Running,
            }),
    {
        ChatBackend {
            key,
            state: ChatState::new(),
            username,
            bad_actors: Quarantine::new(),
            phase: BackendPhase::Running,
        }
    }

    /// Where the backend is in its life.
    pub fn phase(&self) -> (phase: BackendPhase)
        ensures
            phase == self@.phase,
    {
        self.phase
    }

    /// The name registered for a peer, or `"Unknown"`.
    pub fn resolve_name(&self, peer: PeerId) -> (name: &str)
        ensures
            name@ == resolved_name(self@.users, peer@),
    {
        self.state.resolve_name(peer)
    }

    /// Whether the peer's traffic currently fails to decrypt.
    pub fn is_failing(&self, peer: &PeerId) -> (failing: bool)
        ensures
            failing == self@.failing.contains(peer@),
    {
        self.bad_actors.is_failing(peer)
    }

    /// Dispatches one decoded message: brings the registry up to date and
    /// returns the events to hand on, in order.
    pub fn handle_message(&mut self, body: MessageBody) -> (events: Vec<SystemEvent>)
        ensures
            final(self)@ == (ChatBackendView {
                users: message_users(old(self)@.users, body@),
                ..old(self)@
            }),
            events_view(events@) == message_events(old(self)@.users, old(self)@.username, body@),
    {
        let mut events: Vec<SystemEvent> = Vec::new();
        match body {
            MessageBody::Joined { from, name } => {
                match self.state.update_user(from, name.clone()) {
                    None => {
                        events.push(SystemEvent::Ui(ChatEvent::PeerJoined(name)));
                        events.push(
                            SystemEvent::Network(NetworkEvent::BroadcastJoin(self.username.clone())),
                        );
                    },
                    Some(old_name) => {
                        if !(old_name == name) {
                            events.push(
                                SystemEvent::Ui(ChatEvent::PeerNameChange { old: old_name, new: name }),
                            );
                        }
                    },
                }
            },
            MessageBody::Text { from, text } => {
                let name = self.state.resolve_name(from).to_owned();
                events.push(SystemEvent::Ui(ChatEvent::MessageReceived { author: name, content: text }));
            },
            MessageBody::Left { from } => {
                if let Some(user) = self.state.remove_user(&from) {
                    events.push(SystemEvent::Ui(ChatEvent::PeerLeft(user)));
                }
            },
            MessageBody::DiceRoll { from, result, dice, rolls } => {
                let name = self.state.resolve_name(from).to_owned();
                events.push(
                    SystemEvent::Ui(ChatEvent::DiceRolled { result, rolls, dice, author: Some(name) }),
                );
            },
        }
        proof {
            assert(events_view(events@) =~= message_events(
                old(self)@.users,
                old(self)@.username,
                body@,
            ));
        }
        events
    }

    /// Acts on the outcome of decrypting a delivery from `sender`: keeps
    /// the quarantine, announces a first failure and a recovery, and
    /// dispatches a decoded message.
    pub fn handle_decrypted(
        &mut self,
        sender: PeerId,
        outcome: Result<MessageBody, DecodeError>,
    ) -> (events: Vec<SystemEvent>)
        ensures
            final(self)@ == decoded_state(old(self)@, sender@, body_result_view(outcome)),
            events_view(events@) == decoded_events(old(self)@, sender@, body_result_view(outcome)),
    {
        match outcome {
            Ok(body) => {
                let mut events: Vec<SystemEvent> = Vec::new();
                if self.bad_actors.record_success(&sender) {
                    let mut text = "Encryption recovered for peer ".to_owned();
                    text.append(sender.fmt_short().as_str());
                    events.push(SystemEvent::Ui(ChatEvent::SystemStatus(text)));
                }
                let ghost first = events_view(events@);
                let mut rest = self.handle_message(body);
                let ghost second = events_view(rest@);
                events.append(&mut rest);
                proof {
                    assert(events_view(events@) =~= first + second);
                    if old(self)@.failing.contains(sender@) {
                        assert(first =~= seq![status_event(recovered_text(sender@))]);
                    } else {
                        assert(first =~= Seq::<SystemEventView>::empty());
                    }
                }
                events
            },
            Err(e) => {
                let mut events: Vec<SystemEvent> = Vec::new();
                if self.bad_actors.record_failure(sender) {
                    let mut text = "Decryption failed for peer ".to_owned();
                    text.append(sender.fmt_short().as_str());
                    text.append(": ");
                    text.append(DecodeError::AuthenticationOrFormat.message().as_str());
                    text.append(". Usually caused by password or room name mismatch.");
                    events.push(SystemEvent::Ui(ChatEvent::Error(text)));
                }
                proof {
                    assert(events_view(events@) =~= decoded_events(
                        old(self)@,
                        sender@,
                        body_result_view(outcome),
                    ));
                }
                events
            },
        }
    }

    /// Processes one delivery: reads the envelope, decrypts it under the
    /// room's key, and acts on the outcome.
    pub fn handle_event(&mut self, delivery: Delivery) -> (events: Vec<SystemEvent>)
        ensures
            delivery_handled(
                old(self)@,
                delivery.sender@,
                delivery.content@,
                final(self)@,
                events_view(events@),
            ),
    {
        match Message::from_bytes(delivery.content.as_slice()) {
            Err(e) => {
                let mut text = "Failed to process event: ".to_owned();
                text.append(DecodeError::Malformed.message().as_str());
                let mut events: Vec<SystemEvent> = Vec::new();
                events.push(SystemEvent::Ui(ChatEvent::Error(text)));
                proof {
                    assert(events_view(events@) =~= seq![error_event(malformed_text())]);
                }
                events
            },
            Ok(message) => {
                let outcome = message.decrypt(&self.key);
                let ghost view = body_result_view(outcome);
                let events = self.handle_decrypted(delivery.sender, outcome);
                proof {
                    message.lemma_nonce_len();
                    assert(envelope_wire(message@) == delivery.content@);
                    assert(decrypt_outcome(message@, old(self)@.key, view));
                    assert(is_envelope_wire(delivery.content@));
                }
                events
            },
        }
    }

    /// One step of the backend: what the input does to it, and what the
    /// loop that drives it has to do next, in order.
    pub fn step(&mut self, input: BackendInput) -> (actions: Vec<BackendAction>)
        ensures
            stepped(old(self)@, input@, final(self)@, actions_view(actions@)),
    {
        let mut actions: Vec<BackendAction> = Vec::new();
        match self.phase {
            BackendPhase::Running => match input {
                BackendInput::Shutdown | BackendInput::StreamEnded | BackendInput::ConsumerClosed => {
                    self.phase = BackendPhase::Draining;
                    actions.push(
                        BackendAction::Emit(
                            SystemEvent::Ui(ChatEvent::SystemStatus("You left the chat".to_owned())),
                        ),
                    );
                    actions.push(BackendAction::ReleaseTransport);
                    proof {
                        assert(actions_view(actions@) =~= seq![
                            BackendActionView::Emit(status_event(left_text())),
                            BackendActionView::ReleaseTransport,
                        ]);
                    }
                },
                BackendInput::Delivery(delivery) => {
                    let ghost sender = delivery.sender@;
                    let ghost content = delivery.content@;
                    let events = self.handle_event(delivery);
                    let ghost handled = events_view(events@);
                    actions = emit_actions(events);
                    proof {
                        assert(delivery_handled(old(self)@, sender, content, self@, handled));
                        assert(delivery_stepped(
                            old(self)@,
                            sender,
                            content,
                            self@,
                            actions_view(actions@),
                        ));
                    }
                },
                BackendInput::OtherEvent | BackendInput::Released(_) => {
                    proof {
                        assert(actions_view(actions@) =~= Seq::<BackendActionView>::empty());
                    }
                },
            },
            BackendPhase::Draining => match input {
                BackendInput::Released(None) => {
                    self.phase = BackendPhase::Terminated;
                    proof {
                        assert(actions_view(actions@) =~= Seq::<BackendActionView>::empty());
                    }
                },
                BackendInput::Released(Some(complaint)) => {
                    self.phase = BackendPhase::Terminated;
                    let mut text = "Error during shutdown: ".to_owned();
                    text.append(complaint.as_str());
                    actions.push(BackendAction::Emit(SystemEvent::Ui(ChatEvent::Error(text))));
                    proof {
                        assert(actions_view(actions@) =~= seq![
                            BackendActionView::Emit(error_event(release_failed_text(complaint@))),
                        ]);
                    }
                },
                _ => {
                    proof {
                        assert(actions_view(actions@) =~= Seq::<BackendActionView>::empty());
                    }
                },
            },
            BackendPhase::Terminated => {
                proof {
                    assert(actions_view(actions@) =~= Seq::<BackendActionView>::empty());
                }
            },
        }
        actions
    }
}

/// The actions that hand the given events to the consumer, in order.
pub fn emit_actions(events: Vec<SystemEvent>) -> (actions: Vec<BackendAction>)
    ensures
        actions_view(actions@) == emit_all(events_view(events@)),
{
    let mut actions: Vec<BackendAction> = Vec::new();
    let mut events = events;
    let ghost all = events_view(events@);
    assert(actions_view(actions@) + emit_all(events_view(events@)) =~= emit_all(all));
    while events.len() > 0
        invariant
            actions_view(actions@) + emit_all(events_view(events@)) == emit_all(all),
        decreases events@.len(),
    {
        let ghost done = actions_view(actions@);
        let ghost left = events_view(events@);
        let event = events.remove(0);
        actions.push(BackendAction::Emit(event));
        proof {
            assert(actions_view(actions@) =~= done.push(BackendActionView::Emit(event@)));
            assert(events_view(events@) =~= left.drop_first());
            assert(done.push(BackendActionView::Emit(event@)) + emit_all(left.drop_first()) =~= done
                + emit_all(left));
        }
    }
    assert(actions_view(actions@) + emit_all(events_view(events@)) =~= actions_view(actions@));
    actions
}

} // verus!
