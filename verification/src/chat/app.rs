//! The chat application: what user input, system events and an interrupt
//! call for.

use crate::chat::client::{ChatClient, ChatClientView};
use crate::command::{command_of, InputCommand, InputCommandView};
use crate::dice::{
    dice_error_text, dice_of_text, roll_total, rolls_in_range, Dice, DiceError, DiceView,
};
use crate::events::{
    ChatEvent, ChatEventView, NetworkEvent, NetworkEventView, SystemEvent, SystemEventView,
};
use crate::message::{MessageBody, MessageBodyView};
use crate::peer::PeerId;
use core::ops::ControlFlow;
use vstd::prelude::*;
use vstd::string::StringExecFns;

verus! {

/// Something for the application loop to do.
#[derive(Clone, Debug, PartialEq, Eq)]
pub enum AppAction {
    /// Show the event to the user.
    Render(ChatEvent),
    /// Send the message to the room.
    Send(MessageBody),
    /// Wait a moment, so that what was sent can leave.
    Pause,
    /// Tell every task to shut down.
    Shutdown,
}

/// The mathematical content of an [`AppAction`].
pub enum AppActionView {
    Render(ChatEventView),
    Send(MessageBodyView),
    Pause,
    Shutdown,
}

impl View for AppAction {
    type V = AppActionView;

    open spec fn view(&self) -> AppActionView {
        match *self {
            AppAction::Render(event) => AppActionView::Render(event@),
            AppAction::Send(body) => AppActionView::Send(body@),
            AppAction::Pause => AppActionView::Pause,
            AppAction::Shutdown => AppActionView::Shutdown,
        }
    }
}

/// The contents of a list of actions, in order.
pub open spec fn app_actions_view(actions: Seq<AppAction>) -> Seq<AppActionView> {
    actions.map_values(|a: AppAction| a@)
}

/// The chat application, connected to the room or not yet.
pub struct ChatApp {
    client: Option<ChatClient>,
}

impl View for ChatApp {
    type V = Option<ChatClientView>;

    closed spec fn view(&self) -> Option<ChatClientView> {
        match self.client {
            Some(client) => Some(client@),
            None => None,
        }
    }
}

impl ChatApp {
    /// The identity of the connected participant, if there is a
    /// connection.
    pub open spec fn local_id(&self) -> Option<Seq<u8>> {
        match self@ {
            Some(client) => Some(client.id),
            None => None,
        }
    }
}

/// The notice that a command came before the connection.
pub open spec fn wait_text() -> Seq<char> {
    "Wait for connection..."@
}

/// The notice that an announcement came before the connection.
pub open spec fn waiting_text() -> Seq<char> {
    "Waiting for connection..."@
}

/// The notice that the name was changed.
pub open spec fn renamed_text(name: Seq<char>) -> Seq<char> {
    "Changed name to "@ + name
}

/// The notice that an interrupt was seen.
pub open spec fn interrupt_text() -> Seq<char> {
    "Detected shutdown sequence. You can also use the '/quit' command to leave"@
}

/// What a dice roll of this participant calls for: the roll is shown
/// without an author, and told to the room.
pub open spec fn roll_actions(
    local: Seq<u8>,
    dice: DiceView,
    result: u32,
    rolls: Seq<u32>,
) -> Seq<AppActionView> {
    seq![
        AppActionView::Render(ChatEventView::DiceRolled { result, rolls, dice, author: None }),
        AppActionView::Send(MessageBodyView::DiceRoll { from: local, result, dice, rolls }),
    ]
}

/// What a command calls for that is no request to roll dice.
pub open spec fn plain_command_actions(local: Seq<u8>, command: InputCommandView) -> Seq<
    AppActionView,
> {
    match command {
        InputCommandView::Quit => seq![
            AppActionView::Send(MessageBodyView::Left { from: local }),
            AppActionView::Pause,
            AppActionView::Shutdown,
        ],
        InputCommandView::Broadcast(text) => seq![
            AppActionView::Send(MessageBodyView::Text { from: local, text }),
        ],
        InputCommandView::ChangeName(name) => seq![
            AppActionView::Render(ChatEventView::SystemStatus(renamed_text(name))),
            AppActionView::Send(MessageBodyView::Joined { from: local, name }),
        ],
        InputCommandView::DiceRoll(_) => seq![],
    }
}

/// Whether the actions are those of rolling the dice that the text
/// describes: a text that describes none is answered with the error; dice
/// are rolled, one roll per die and each in range, and the roll is shown
/// and sent with the result of the rolls.
pub open spec fn dice_command_handled(
    local: Seq<u8>,
    text: Seq<char>,
    actions: Seq<AppActionView>,
) -> bool {
    match dice_of_text(text) {
        Err(e) => actions == seq![AppActionView::Render(ChatEventView::Error(dice_error_text(e)))],
        Ok(dice) => dice_rolled(local, dice, actions),
    }
}

/// Whether the actions show and send some roll of the dice.
pub open spec fn dice_rolled(local: Seq<u8>, dice: DiceView, actions: Seq<AppActionView>) -> bool {
    exists|result: u32, rolls: Seq<u32>|
        {
            &&& rolls.len() == dice.count
            &&& rolls_in_range(rolls, dice.sides)
            &&& result == roll_total(rolls, dice.modifier)
            &&& actions == #[trigger] roll_actions(local, dice, result, rolls)
        }
}

/// Whether the actions and the flow are those that a line of user input
/// calls for. Before the connection every line is answered with a notice.
/// After it the line is read as a command; only a request to quit breaks
/// the flow.
pub open spec fn input_handled(
    local: Option<Seq<u8>>,
    line: Seq<char>,
    actions: Seq<AppActionView>,
    flow: ControlFlow<()>,
) -> bool {
    match local {
        None => actions == seq![AppActionView::Render(ChatEventView::Error(wait_text()))] && flow
            == ControlFlow::<()>::Continue(()),
        Some(local) => match command_of(line) {
            InputCommandView::DiceRoll(text) => dice_command_handled(local, text, actions) && flow
                == ControlFlow::<()>::Continue(()),
            InputCommandView::Quit => actions == plain_command_actions(local, InputCommandView::Quit)
                && flow == ControlFlow::<()>::Break(()),
            command => actions == plain_command_actions(local, command) && flow == ControlFlow::<
                (),
            >::Continue(()),
        },
    }
}

/// What a system event calls for: an event for the user is shown; a
/// request to announce this participant is sent to the room, or answered
/// with a notice before the connection.
pub open spec fn system_event_actions(local: Option<Seq<u8>>, event: SystemEventView) -> Seq<
    AppActionView,
> {
    match event {
        SystemEventView::Ui(event) => seq![AppActionView::Render(event)],
        SystemEventView::Network(NetworkEventView::BroadcastJoin(name)) => match local {
            Some(local) => seq![AppActionView::Send(MessageBodyView::Joined { from: local, name })],
            None => seq![AppActionView::Render(ChatEventView::Error(waiting_text()))],
        },
    }
}

/// What an interrupt calls for: with a connection the room is told that
/// this participant leaves; then the user is told, and every task is told
/// to shut down.
pub open spec fn interrupt_actions(local: Option<Seq<u8>>) -> Seq<AppActionView> {
    (match local {
        Some(local) => seq![
            AppActionView::Send(MessageBodyView::Left { from: local }),
            AppActionView::Pause,
        ],
        None => seq![],
    }) + seq![
        AppActionView::Render(ChatEventView::SystemStatus(interrupt_text())),
        AppActionView::Shutdown,
    ]
}

impl ChatApp {
    /// An application without a connection.
    pub fn new() -> (app: ChatApp)
        ensures
            app@ is None,
    {
        ChatApp { client: None }
    }

    /// The client of the connection, if there is one.
    pub fn client(&self) -> (client: Option<&ChatClient>)
        ensures
            match client {
                Some(c) => self@ == Some(c@),
                None => self@ is None,
            },
    {
        self.client.as_ref()
    }

    /// Connects the application: from now on it holds this client.
    pub fn set_client(&mut self, client: ChatClient)
        ensures
            final(self)@ == Some(client@),
    {
        self.client = Some(client);
    }

    /// What a dice roll of the participant `local` calls for.
    pub fn plan_roll(local: PeerId, dice: Dice, result: u32, rolls: Vec<u32>) -> (actions: Vec<
        AppAction,
    >)
        ensures
            app_actions_view(actions@) == roll_actions(local@, dice@, result, rolls@),
    {
        let mut actions: Vec<AppAction> = Vec::new();
        let shown = rolls.clone();
        actions.push(AppAction::Render(ChatEvent::DiceRolled { result, rolls: shown, dice, author: None }));
        actions.push(AppAction::Send(MessageBody::DiceRoll { from: local, result, dice, rolls }));
        proof {
            assert(shown@ =~= rolls@);
            assert(app_actions_view(actions@) =~= roll_actions(local@, dice@, result, rolls@));
        }
        actions
    }

    /// What a line of user input calls for, and whether the input loop goes
    /// on.
    pub fn handle_user_input(&self, line: String) -> (r: (Vec<AppAction>, ControlFlow<()>))
        ensures
            input_handled(self.local_id(), line@, app_actions_view(r.0@), r.1),
    {
        let mut actions: Vec<AppAction> = Vec::new();
        let local = match &self.client {
            None => {
                actions.push(AppAction::Render(ChatEvent::Error("Wait for connection...".to_owned())));
                proof {
                    assert(app_actions_view(actions@) =~= seq![
                        AppActionView::Render(ChatEventView::Error(wait_text())),
                    ]);
                }
                return (actions, ControlFlow::Continue(()));
            },
            Some(client) => client.id(),
        };
        let command = InputCommand::parse(line);
        let ghost view = command@;
        match command {
            InputCommand::Quit => {
                actions.push(AppAction::Send(MessageBody::Left { from: local }));
                actions.push(AppAction::Pause);
                actions.push(AppAction::Shutdown);
                proof {
                    assert(app_actions_view(actions@) =~= plain_command_actions(local@, view));
                }
                (actions, ControlFlow::Break(()))
            },
            InputCommand::Broadcast(text) => {
                actions.push(AppAction::Send(MessageBody::Text { from: local, text }));
                proof {
                    assert(app_actions_view(actions@) =~= plain_command_actions(local@, view));
                }
                (actions, ControlFlow::Continue(()))
            },
            InputCommand::ChangeName(name) => {
                let mut text = "Changed name to ".to_owned();
                text.append(name.as_str());
                actions.push(AppAction::Render(ChatEvent::SystemStatus(text)));
                actions.push(AppAction::Send(MessageBody::Joined { from: local, name }));
                proof {
                    assert(app_actions_view(actions@) =~= plain_command_actions(local@, view));
                }
                (actions, ControlFlow::Continue(()))
            },
            InputCommand::DiceRoll(dice_text) => {
                match Dice::from_str(dice_text.as_str()) {
                    Ok(dice) => {
                        let (result, rolls) = dice.roll();
                        let ghost rolled = rolls@;
                        let actions = ChatApp::plan_roll(local, dice, result, rolls);
                        proof {
                            assert(app_actions_view(actions@) == roll_actions(
                                local@,
                                dice@,
                                result,
                                rolled,
                            ));
                            assert(dice_rolled(local@, dice@, app_actions_view(actions@)));
                            assert(dice_of_text(dice_text@) == Ok::<DiceView, DiceError>(dice@));
                        }
                        (actions, ControlFlow::Continue(()))
                    },
                    Err(e) => {
                        actions.push(AppAction::Render(ChatEvent::Error(e.message())));
                        proof {
                            assert(app_actions_view(actions@) =~= seq![
                                AppActionView::Render(ChatEventView::Error(dice_error_text(e))),
                            ]);
                        }
                        (actions, ControlFlow::Continue(()))
                    },
                }
            },
        }
    }

    /// What a system event calls for.
    pub fn handle_system_event(&self, event: SystemEvent) -> (actions: Vec<AppAction>)
        ensures
            app_actions_view(actions@) == system_event_actions(self.local_id(), event@),
    {
        let mut actions: Vec<AppAction> = Vec::new();
        match event {
            SystemEvent::Ui(ui_event) => {
                actions.push(AppAction::Render(ui_event));
            },
            SystemEvent::Network(NetworkEvent::BroadcastJoin(name)) => match &self.client {
                Some(client) => {
                    actions.push(AppAction::Send(MessageBody::Joined { from: client.id(), name }));
                },
                None => {
                    actions.push(
                        AppAction::Render(ChatEvent::Error("Waiting for connection...".to_owned())),
                    );
                },
            },
        }
        proof {
            assert(app_actions_view(actions@) =~= system_event_actions(self.local_id(), event@));
        }
        actions
    }

    /// What an interrupt calls for.
    pub fn handle_ctrl_c(&self) -> (actions: Vec<AppAction>)
        ensures
            app_actions_view(actions@) == interrupt_actions(self.local_id()),
    {
        let mut actions: Vec<AppAction> = Vec::new();
        if let Some(client) = &self.client {
            actions.push(AppAction::Send(MessageBody::Left { from: client.id() }));
            actions.push(AppAction::Pause);
        }
        actions.push(
            AppAction::Render(
                ChatEvent::SystemStatus(
                    "Detected shutdown sequence. You can also use the '/quit' command to leave".to_owned(),
                ),
            ),
        );
        actions.push(AppAction::Shutdown);
        proof {
            assert(app_actions_view(actions@) =~= interrupt_actions(self.local_id()));
        }
        actions
    }
}

} // verus!
