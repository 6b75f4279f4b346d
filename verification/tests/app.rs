use cantrip::chat::app::{AppAction, ChatApp};
use cantrip::chat::client::ChatClient;
use cantrip::chat::config::ChatConfig;
use cantrip::chat::room::{ChatCommand, ChatRoom};
use cantrip::dice::Dice;
use cantrip::events::{ChatEvent, NetworkEvent, SystemEvent};
use cantrip::message::{Message, MessageBody};
use cantrip::peer::PeerId;
use cantrip::ticket::{PeerAddr, Ticket, TransportAddr};
use std::ops::ControlFlow;

fn me() -> PeerId {
    PeerId::from_bytes([0x4d; 32])
}

fn connected() -> ChatApp {
    let mut app = ChatApp::new();
    app.set_client(ChatClient::new(me(), [1u8; 32]));
    app
}

#[test]
fn input_before_the_connection_is_answered_with_a_notice() {
    let app = ChatApp::new();
    assert!(app.client().is_none());
    for line in ["hello", "/quit", "/roll d6"] {
        assert_eq!(
            app.handle_user_input(line.to_string()),
            (
                vec![AppAction::Render(ChatEvent::Error("Wait for connection...".to_string()))],
                ControlFlow::Continue(())
            )
        );
    }
}

#[test]
fn the_client_that_was_set_is_the_client() {
    let mut app = ChatApp::new();
    let client = ChatClient::new(me(), [9u8; 32]);
    app.set_client(client.clone());
    // what the held client seals opens under the key that was set
    let bytes = app.client().unwrap().broadcast_left().unwrap();
    let body = Message::from_bytes(&bytes).unwrap().decrypt(&[9u8; 32]).unwrap();
    assert_eq!(body, MessageBody::Left { from: me() });
    assert!(Message::from_bytes(&bytes).unwrap().decrypt(&[1u8; 32]).is_err());
}

#[test]
fn quit_says_goodbye_and_breaks() {
    let app = connected();
    assert_eq!(app.client().unwrap().id(), me());
    assert_eq!(
        app.handle_user_input("/quit".to_string()),
        (
            vec![
                AppAction::Send(MessageBody::Left { from: me() }),
                AppAction::Pause,
                AppAction::Shutdown,
            ],
            ControlFlow::Break(())
        )
    );
}

#[test]
fn text_and_rename() {
    let app = connected();
    assert_eq!(
        app.handle_user_input("hello there".to_string()),
        (
            vec![AppAction::Send(MessageBody::Text { from: me(), text: "hello there".to_string() })],
            ControlFlow::Continue(())
        )
    );
    assert_eq!(
        app.handle_user_input("/nick Bob".to_string()),
        (
            vec![
                AppAction::Render(ChatEvent::SystemStatus("Changed name to Bob".to_string())),
                AppAction::Send(MessageBody::Joined { from: me(), name: "Bob".to_string() }),
            ],
            ControlFlow::Continue(())
        )
    );
}

#[test]
fn dice_are_rolled_shown_and_sent() {
    let app = connected();
    let (actions, flow) = app.handle_user_input("/roll 4d6 + 2".to_string());
    assert_eq!(flow, ControlFlow::Continue(()));
    assert_eq!(actions.len(), 2);
    let dice = Dice::new(4, 6, 2).unwrap();
    match (&actions[0], &actions[1]) {
        (
            AppAction::Render(ChatEvent::DiceRolled { result, rolls, dice: shown, author: None }),
            AppAction::Send(MessageBody::DiceRoll { from, result: sent, dice: sent_dice, rolls: sent_rolls }),
        ) => {
            assert_eq!(*shown, dice);
            assert_eq!(*sent_dice, dice);
            assert_eq!(*from, me());
            assert_eq!(rolls, sent_rolls);
            assert_eq!(result, sent);
            assert_eq!(rolls.len(), 4);
            assert!(rolls.iter().all(|r| (1..=6).contains(r)));
            assert_eq!(*result, rolls.iter().sum::<u32>() + 2);
        }
        other => panic!("{other:?}"),
    }
}

#[test]
fn bad_dice_are_answered_with_the_error() {
    let app = connected();
    for (line, text) in [
        ("/roll nonsense", "Invalid dice format"),
        ("/roll 501d6", "Too many dice rolls! Please roll 500 dice or fewer."),
        ("/roll 1d1", "Invalid number of sides for the dice."),
        ("/roll 1d99999999999", "number too large to fit in target type"),
    ] {
        assert_eq!(
            app.handle_user_input(line.to_string()),
            (
                vec![AppAction::Render(ChatEvent::Error(text.to_string()))],
                ControlFlow::Continue(())
            )
        );
    }
}

#[test]
fn plan_roll_shows_then_sends() {
    let dice = Dice::new(2, 6, 0).unwrap();
    assert_eq!(
        ChatApp::plan_roll(me(), dice, 7, vec![3, 4]),
        vec![
            AppAction::Render(ChatEvent::DiceRolled { result: 7, rolls: vec![3, 4], dice, author: None }),
            AppAction::Send(MessageBody::DiceRoll { from: me(), result: 7, dice, rolls: vec![3, 4] }),
        ]
    );
}

#[test]
fn system_events() {
    let event = ChatEvent::PeerJoined("Alice".to_string());
    for app in [ChatApp::new(), connected()] {
        assert_eq!(
            app.handle_system_event(SystemEvent::Ui(event.clone())),
            vec![AppAction::Render(event.clone())]
        );
    }
    let announce = SystemEvent::Network(NetworkEvent::BroadcastJoin("Me".to_string()));
    assert_eq!(
        connected().handle_system_event(announce.clone()),
        vec![AppAction::Send(MessageBody::Joined { from: me(), name: "Me".to_string() })]
    );
    assert_eq!(
        ChatApp::new().handle_system_event(announce),
        vec![AppAction::Render(ChatEvent::Error("Waiting for connection...".to_string()))]
    );
}

#[test]
fn interrupt() {
    let notice = AppAction::Render(ChatEvent::SystemStatus(
        "Detected shutdown sequence. You can also use the '/quit' command to leave".to_string(),
    ));
    assert_eq!(ChatApp::new().handle_ctrl_c(), vec![notice.clone(), AppAction::Shutdown]);
    assert_eq!(
        connected().handle_ctrl_c(),
        vec![
            AppAction::Send(MessageBody::Left { from: me() }),
            AppAction::Pause,
            notice,
            AppAction::Shutdown,
        ]
    );
}

#[test]
fn connect_notices() {
    assert_eq!(
        ChatRoom::connect_notices("ticket-abc", 0),
        vec![
            ChatEvent::SystemStatus("ticket to join: ticket-abc".to_string()),
            ChatEvent::SystemStatus("waiting for endpoints to join us...".to_string()),
        ]
    );
    assert_eq!(
        ChatRoom::connect_notices("ticket-abc", 12),
        vec![
            ChatEvent::SystemStatus("ticket to join: ticket-abc".to_string()),
            ChatEvent::SystemStatus("trying to connect to 12 endpoints...".to_string()),
        ]
    );
    assert_eq!(ChatRoom::connected(), ChatEvent::SystemStatus("connected!".to_string()));
    assert_eq!(
        ChatRoom::welcome_failed("closed"),
        ChatEvent::Error("Failed to broadcast a welcome message: closed".to_string())
    );
}

#[test]
fn own_ticket_and_bootstrap_ids() {
    let config = ChatConfig {
        username: "alice".to_string(),
        secret_key: [1u8; 32],
        topic: [2u8; 32],
        bootstrap_nodes: vec![
            PeerAddr { id: PeerId::from_bytes([5u8; 32]), addrs: vec![] },
            PeerAddr {
                id: PeerId::from_bytes([6u8; 32]),
                addrs: vec![TransportAddr::Relay("https://r/".to_string())],
            },
        ],
        symmetric_key: [3u8; 32],
        is_host: false,
    };
    let own = PeerAddr { id: me(), addrs: vec![TransportAddr::V4 { ip: [1, 2, 3, 4], port: 5 }] };
    assert_eq!(ChatRoom::own_ticket(&config, own.clone()), Ticket::new([2u8; 32], vec![own]));
    assert_eq!(
        ChatRoom::bootstrap_ids(&config.bootstrap_nodes),
        vec![PeerId::from_bytes([5u8; 32]), PeerId::from_bytes([6u8; 32])]
    );
}

#[test]
fn a_command_of_the_backend_announces_this_participant() {
    let client = ChatClient::new(me(), [1u8; 32]);
    let bytes = ChatRoom::handle_command(&client, "Me", ChatCommand::BroadcastJoin).unwrap();
    let body = Message::from_bytes(&bytes).unwrap().decrypt(&[1u8; 32]).unwrap();
    assert_eq!(body, MessageBody::Joined { from: me(), name: "Me".to_string() });
}
