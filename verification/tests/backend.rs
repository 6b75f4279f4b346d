use cantrip::chat::backend::{BackendAction, BackendInput, BackendPhase, ChatBackend, Delivery};
use cantrip::chat::client::ChatClient;
use cantrip::dice::Dice;
use cantrip::events::{ChatEvent, NetworkEvent, SystemEvent};
use cantrip::message::{DecodeError, Message, MessageBody};
use cantrip::peer::PeerId;

fn room_key() -> [u8; 32] {
    [5u8; 32]
}

fn other_key() -> [u8; 32] {
    [6u8; 32]
}

fn alice() -> PeerId {
    PeerId::from_bytes([0xa1; 32])
}

fn bob() -> PeerId {
    PeerId::from_bytes([0xb0; 32])
}

fn backend() -> ChatBackend {
    ChatBackend::new(room_key(), "Me".to_string())
}

fn sealed(body: MessageBody, key: &[u8; 32]) -> Vec<u8> {
    Message::new(body, key).unwrap().to_vec()
}

fn deliver(backend: &mut ChatBackend, sender: PeerId, content: Vec<u8>) -> Vec<SystemEvent> {
    backend.handle_event(Delivery { sender, content })
}

fn ui(event: ChatEvent) -> SystemEvent {
    SystemEvent::Ui(event)
}

#[test]
fn join_then_text_is_announced_and_attributed() {
    let mut backend = backend();
    let client = ChatClient::new(alice(), room_key());

    let joined = deliver(&mut backend, alice(), client.broadcast_join("Alice".to_string()).unwrap());
    assert_eq!(
        joined,
        vec![
            ui(ChatEvent::PeerJoined("Alice".to_string())),
            SystemEvent::Network(NetworkEvent::BroadcastJoin("Me".to_string())),
        ]
    );

    let text = deliver(&mut backend, alice(), client.broadcast_text("hi".to_string()).unwrap());
    assert_eq!(
        text,
        vec![ui(ChatEvent::MessageReceived {
            author: "Alice".to_string(),
            content: "hi".to_string(),
        })]
    );
}

#[test]
fn wrong_password_is_reported_once_and_recovery_once() {
    let mut backend = backend();
    let stranger = ChatClient::new(alice(), other_key());
    let friend = ChatClient::new(alice(), room_key());

    let first = deliver(&mut backend, alice(), stranger.broadcast_text("one".to_string()).unwrap());
    assert_eq!(
        first,
        vec![ui(ChatEvent::Error(
            "Decryption failed for peer a1a1a1a1a1: Failed to decrypt a message. Usually caused by password or room name mismatch."
                .to_string()
        ))]
    );
    assert!(backend.is_failing(&alice()));

    for _ in 0..5 {
        let again = deliver(&mut backend, alice(), stranger.broadcast_text("more".to_string()).unwrap());
        assert_eq!(again, vec![]);
    }

    let recovered = deliver(&mut backend, alice(), friend.broadcast_text("back".to_string()).unwrap());
    assert_eq!(
        recovered,
        vec![
            ui(ChatEvent::SystemStatus("Encryption recovered for peer a1a1a1a1a1".to_string())),
            ui(ChatEvent::MessageReceived {
                author: "Unknown".to_string(),
                content: "back".to_string(),
            }),
        ]
    );
    assert!(!backend.is_failing(&alice()));

    let steady = deliver(&mut backend, alice(), friend.broadcast_text("still".to_string()).unwrap());
    assert_eq!(
        steady,
        vec![ui(ChatEvent::MessageReceived {
            author: "Unknown".to_string(),
            content: "still".to_string(),
        })]
    );

    let failing_again = deliver(&mut backend, alice(), stranger.broadcast_left().unwrap());
    assert_eq!(failing_again.len(), 1);
    assert!(matches!(failing_again[0], SystemEvent::Ui(ChatEvent::Error(_))));
}

#[test]
fn quarantine_goes_by_the_delivering_peer() {
    let mut backend = backend();
    let stranger = ChatClient::new(alice(), other_key());
    // Alice's undecryptable bytes delivered by Bob put Bob in quarantine.
    let events = deliver(&mut backend, bob(), stranger.broadcast_left().unwrap());
    assert_eq!(events.len(), 1);
    assert!(backend.is_failing(&bob()));
    assert!(!backend.is_failing(&alice()));
}

#[test]
fn malformed_delivery_gives_a_processing_error_and_nothing_else() {
    let mut backend = backend();
    for junk in [Vec::new(), b"hello".to_vec(), b"{\"ciphertext\":[1]}".to_vec()] {
        let events = deliver(&mut backend, alice(), junk);
        assert_eq!(
            events,
            vec![ui(ChatEvent::Error("Failed to process event: Malformed data".to_string()))]
        );
        assert!(!backend.is_failing(&alice()));
    }
    // and the backend goes on
    let client = ChatClient::new(alice(), room_key());
    let events = deliver(&mut backend, alice(), client.broadcast_join("Alice".to_string()).unwrap());
    assert_eq!(events.len(), 2);
}

#[test]
fn rename_and_repeated_join() {
    let mut backend = backend();
    assert_eq!(
        backend.handle_message(MessageBody::Joined { from: alice(), name: "Alice".to_string() }).len(),
        2
    );
    assert_eq!(
        backend.handle_message(MessageBody::Joined { from: alice(), name: "Alice".to_string() }),
        vec![]
    );
    assert_eq!(
        backend.handle_message(MessageBody::Joined { from: alice(), name: "Alicia".to_string() }),
        vec![ui(ChatEvent::PeerNameChange {
            old: "Alice".to_string(),
            new: "Alicia".to_string(),
        })]
    );
    assert_eq!(backend.resolve_name(alice()), "Alicia");
}

#[test]
fn leaving_is_reported_only_of_known_peers() {
    let mut backend = backend();
    assert_eq!(backend.handle_message(MessageBody::Left { from: alice() }), vec![]);
    backend.handle_message(MessageBody::Joined { from: alice(), name: "Alice".to_string() });
    assert_eq!(
        backend.handle_message(MessageBody::Left { from: alice() }),
        vec![ui(ChatEvent::PeerLeft("Alice".to_string()))]
    );
    assert_eq!(backend.handle_message(MessageBody::Left { from: alice() }), vec![]);
    assert_eq!(backend.resolve_name(alice()), "Unknown");
    // a peer that comes back is new again
    assert_eq!(
        backend.handle_message(MessageBody::Joined { from: alice(), name: "Alice".to_string() }),
        vec![
            ui(ChatEvent::PeerJoined("Alice".to_string())),
            SystemEvent::Network(NetworkEvent::BroadcastJoin("Me".to_string())),
        ]
    );
}

#[test]
fn dice_rolls_are_attributed() {
    let mut backend = backend();
    let dice = Dice::new(2, 6, 1).unwrap();
    let roll = MessageBody::DiceRoll { from: bob(), result: 8, dice, rolls: vec![3, 4] };
    assert_eq!(
        backend.handle_message(roll.clone()),
        vec![ui(ChatEvent::DiceRolled {
            result: 8,
            rolls: vec![3, 4],
            dice,
            author: Some("Unknown".to_string()),
        })]
    );
    backend.handle_message(MessageBody::Joined { from: bob(), name: "Bob".to_string() });
    assert_eq!(
        backend.handle_message(roll),
        vec![ui(ChatEvent::DiceRolled {
            result: 8,
            rolls: vec![3, 4],
            dice,
            author: Some("Bob".to_string()),
        })]
    );
}

#[test]
fn handle_decrypted_keeps_the_quarantine() {
    let mut backend = backend();
    let failure: Result<MessageBody, DecodeError> = Err(DecodeError::AuthenticationOrFormat);
    assert_eq!(backend.handle_decrypted(alice(), failure.clone()).len(), 1);
    assert_eq!(backend.handle_decrypted(alice(), failure.clone()), vec![]);
    assert_eq!(backend.handle_decrypted(bob(), failure).len(), 1);
    let success = Ok(MessageBody::Left { from: alice() });
    assert_eq!(
        backend.handle_decrypted(alice(), success.clone()),
        vec![ui(ChatEvent::SystemStatus("Encryption recovered for peer a1a1a1a1a1".to_string()))]
    );
    assert_eq!(backend.handle_decrypted(alice(), success), vec![]);
    assert!(backend.is_failing(&bob()));
}

#[test]
fn shutdown_drains_and_terminates() {
    let mut backend = backend();
    assert_eq!(backend.phase(), BackendPhase::Running);
    let actions = backend.step(BackendInput::Shutdown);
    assert_eq!(
        actions,
        vec![
            BackendAction::Emit(ui(ChatEvent::SystemStatus("You left the chat".to_string()))),
            BackendAction::ReleaseTransport,
        ]
    );
    assert_eq!(backend.phase(), BackendPhase::Draining);

    // nothing is processed while draining
    let client = ChatClient::new(alice(), room_key());
    let delivery = Delivery { sender: alice(), content: client.broadcast_text("late".to_string()).unwrap() };
    assert_eq!(backend.step(BackendInput::Delivery(delivery)), vec![]);
    assert_eq!(backend.step(BackendInput::Shutdown), vec![]);
    assert_eq!(backend.step(BackendInput::ConsumerClosed), vec![]);
    assert_eq!(backend.phase(), BackendPhase::Draining);

    assert_eq!(backend.step(BackendInput::Released(None)), vec![]);
    assert_eq!(backend.phase(), BackendPhase::Terminated);
    assert_eq!(backend.step(BackendInput::Shutdown), vec![]);
    assert_eq!(backend.step(BackendInput::Released(None)), vec![]);
    assert_eq!(backend.phase(), BackendPhase::Terminated);
}

#[test]
fn closed_channels_drain_too() {
    for input in [BackendInput::StreamEnded, BackendInput::ConsumerClosed] {
        let mut backend = backend();
        let actions = backend.step(input);
        assert_eq!(actions.len(), 2);
        assert_eq!(actions[1], BackendAction::ReleaseTransport);
        assert_eq!(backend.phase(), BackendPhase::Draining);
    }
}

#[test]
fn failed_release_is_reported_and_not_fatal() {
    let mut backend = backend();
    backend.step(BackendInput::StreamEnded);
    let actions = backend.step(BackendInput::Released(Some("router is gone".to_string())));
    assert_eq!(
        actions,
        vec![BackendAction::Emit(ui(ChatEvent::Error(
            "Error during shutdown: router is gone".to_string()
        )))]
    );
    assert_eq!(backend.phase(), BackendPhase::Terminated);
}

#[test]
fn running_backend_steps_through_deliveries() {
    let mut backend = backend();
    let client = ChatClient::new(alice(), room_key());
    assert_eq!(backend.step(BackendInput::OtherEvent), vec![]);
    assert_eq!(backend.step(BackendInput::Released(None)), vec![]);
    assert_eq!(backend.phase(), BackendPhase::Running);
    let delivery = Delivery { sender: alice(), content: client.broadcast_join("Alice".to_string()).unwrap() };
    assert_eq!(
        backend.step(BackendInput::Delivery(delivery)),
        vec![
            BackendAction::Emit(ui(ChatEvent::PeerJoined("Alice".to_string()))),
            BackendAction::Emit(SystemEvent::Network(NetworkEvent::BroadcastJoin("Me".to_string()))),
        ]
    );
    assert_eq!(backend.phase(), BackendPhase::Running);
}

#[test]
fn client_messages_carry_the_local_identity() {
    let client = ChatClient::new(bob(), room_key());
    assert_eq!(client.id(), bob());
    let dice = Dice::new(1, 20, 0).unwrap();
    let cases = vec![
        (client.broadcast_text("t".to_string()), MessageBody::Text { from: bob(), text: "t".to_string() }),
        (client.broadcast_join("n".to_string()), MessageBody::Joined { from: bob(), name: "n".to_string() }),
        (client.broadcast_left(), MessageBody::Left { from: bob() }),
        (
            client.broadcast_dice_roll(17, dice, vec![17]),
            MessageBody::DiceRoll { from: bob(), result: 17, dice, rolls: vec![17] },
        ),
    ];
    for (bytes, body) in cases {
        let envelope = Message::from_bytes(&bytes.unwrap()).unwrap();
        assert_eq!(envelope.decrypt(&room_key()), Ok(body));
    }
}
