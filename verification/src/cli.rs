//! What the command line has to provide before a room can be joined, and
//! what is asked of the user where it does not.

use crate::ticket::{has_ticket_prefix, is_ticket_prefixed};
use vstd::prelude::*;

verus! {

/// A user name and a room name need more than this many bytes.
pub const MIN_NAME_LEN: usize = 3;

/// Whether to open a new room or to join one.
#[derive(Clone, Debug, PartialEq, Eq)]
pub enum Command {
    /// Open a chat room and print a ticket for others to join.
    Open,
    /// Join a chat room from a ticket.
    Join { ticket: Option<String> },
}

/// The arguments as the command line gave them.
#[derive(Clone, Debug, PartialEq, Eq)]
pub struct Args {
    pub username: Option<String>,
    pub room: Option<String>,
    pub command: Command,
}

/// Everything needed to join a room.
#[derive(Clone, Debug, PartialEq, Eq)]
pub struct Cli {
    pub username: String,
    pub room: String,
    pub password: String,
    pub ticket: Option<String>,
}

/// Why the arguments were refused.
#[derive(Clone, Copy, Debug, PartialEq, Eq)]
pub enum CliError {
    UsernameTooShort,
    RoomTooShort,
    InvalidTicket,
}

/// The next thing to do with the arguments.
#[derive(Clone, Debug, PartialEq, Eq)]
pub enum CliStep {
    /// Ask the user for a name.
    AskUsername,
    /// Ask the user for the name of the room.
    AskRoom,
    /// Ask the user for the ticket to join with.
    AskTicket,
    /// Ask the user for the room's password.
    AskPassword,
    /// Everything is there.
    Done(Cli),
    /// An argument is not acceptable.
    Failed(CliError),
}

/// The mathematical content of a [`Cli`].
pub struct CliView {
    pub username: Seq<char>,
    pub room: Seq<char>,
    pub password: Seq<char>,
    pub ticket: Option<Seq<char>>,
}

/// The mathematical content of a [`Command`].
pub enum CommandView {
    Open,
    Join { ticket: Option<Seq<char>> },
}

/// The mathematical content of an [`Args`].
pub struct ArgsView {
    pub username: Option<Seq<char>>,
    pub room: Option<Seq<char>>,
    pub command: CommandView,
}

/// The mathematical content of a [`CliStep`].
pub enum CliStepView {
    AskUsername,
    AskRoom,
    AskTicket,
    AskPassword,
    Done(CliView),
    Failed(CliError),
}

/// The view of an optional text.
pub open spec fn text_view(text: Option<String>) -> Option<Seq<char>> {
    match text {
        Some(t) => Some(t@),
        None => None,
    }
}

impl View for Cli {
    type V = CliView;

    open spec fn view(&self) -> CliView {
        CliView {
            username: self.username@,
            room: self.room@,
            password: self.password@,
            ticket: text_view(self.ticket),
        }
    }
}

impl View for Command {
    type V = CommandView;

    open spec fn view(&self) -> CommandView {
        match *self {
            Command::Open => CommandView::Open,
            Command::Join { ticket } => CommandView::Join { ticket: text_view(ticket) },
        }
    }
}

impl View for Args {
    type V = ArgsView;

    open spec fn view(&self) -> ArgsView {
        ArgsView {
            username: text_view(self.username),
            room: text_view(self.room),
            command: self.command@,
        }
    }
}

impl View for CliStep {
    type V = CliStepView;

    open spec fn view(&self) -> CliStepView {
        match *self {
            CliStep::AskUsername => CliStepView::AskUsername,
            CliStep::AskRoom => CliStepView::AskRoom,
            CliStep::AskTicket => CliStepView::AskTicket,
            CliStep::AskPassword => CliStepView::AskPassword,
            CliStep::Done(cli) => CliStepView::Done(cli@),
            CliStep::Failed(e) => CliStepView::Failed(e),
        }
    }
}

/// The text that describes an error.
pub open spec fn cli_error_text(e: CliError) -> Seq<char> {
    match e {
        CliError::UsernameTooShort => "Username is too short"@,
        CliError::RoomTooShort => "Topic name is too short"@,
        CliError::InvalidTicket => "Invalid ticket"@,
    }
}

impl CliError {
    /// The text that describes the error.
    pub fn message(&self) -> (text: String)
        ensures
            text@ == cli_error_text(*self),
    {
        match self {
            CliError::UsernameTooShort => "Username is too short".to_owned(),
            CliError::RoomTooShort => "Topic name is too short".to_owned(),
            CliError::InvalidTicket => "Invalid ticket".to_owned(),
        }
    }
}

/// Whether a name is long enough: more than three bytes.
pub open spec fn long_enough(name: Seq<char>) -> bool {
    vstd::utf8::encode_utf8(name).len() > MIN_NAME_LEN
}

/// Whether a user name or a room name is long enough.
pub fn is_long_enough(name: &str) -> (ok: bool)
    ensures
        ok == long_enough(name@),
{
    name.as_bytes().len() > MIN_NAME_LEN
}

/// What the arguments and the password call for: the first of the user
/// name, the room name and, to join, the ticket that is missing is asked
/// for, and the first that is not acceptable is refused; then the password
/// is asked for; then everything is there.
pub open spec fn next_step(args: ArgsView, password: Option<Seq<char>>) -> CliStepView {
    match args.username {
        None => CliStepView::AskUsername,
        Some(username) => if !long_enough(username) {
            CliStepView::Failed(CliError::UsernameTooShort)
        } else {
            match args.room {
                None => CliStepView::AskRoom,
                Some(room) => if !long_enough(room) {
                    CliStepView::Failed(CliError::RoomTooShort)
                } else {
                    match args.command {
                        CommandView::Join { ticket: None } => CliStepView::AskTicket,
                        CommandView::Join { ticket: Some(ticket) } => if !has_ticket_prefix(ticket) {
                            CliStepView::Failed(CliError::InvalidTicket)
                        } else {
                            match password {
                                None => CliStepView::AskPassword,
                                Some(password) => CliStepView::Done(
                                    CliView { username, room, password, ticket: Some(ticket) },
                                ),
                            }
                        },
                        CommandView::Open => match password {
                            None => CliStepView::AskPassword,
                            Some(password) => CliStepView::Done(
                                CliView { username, room, password, ticket: None },
                            ),
                        },
                    }
                },
            }
        },
    }
}

impl Cli {
    /// Decides what to do with the arguments, and with the password where
    /// the user has given it.
    pub fn parse(args: &Args, password: Option<&str>) -> (step: CliStep)
        ensures
            step@ == next_step(
                args@,
                match password {
                    Some(p) => Some(p@),
                    None => None,
                },
            ),
    {
        let username = match &args.username {
            None => {
                return CliStep::AskUsername;
            },
            Some(username) => username,
        };
        if !is_long_enough(username.as_str()) {
            return CliStep::Failed(CliError::UsernameTooShort);
        }
        let room = match &args.room {
            None => {
                return CliStep::AskRoom;
            },
            Some(room) => room,
        };
        if !is_long_enough(room.as_str()) {
            return CliStep::Failed(CliError::RoomTooShort);
        }
        let ticket = match &args.command {
            Command::Open => None,
            Command::Join { ticket: None } => {
                return CliStep::AskTicket;
            },
            Command::Join { ticket: Some(ticket) } => {
                if !is_ticket_prefixed(ticket.as_str()) {
                    return CliStep::Failed(CliError::InvalidTicket);
                }
                Some(ticket.clone())
            },
        };
        match password {
            None => CliStep::AskPassword,
            Some(password) => CliStep::Done(
                Cli {
                    username: username.clone(),
                    room: room.clone(),
                    password: password.to_owned(),
                    ticket,
                },
            ),
        }
    }
}

} // verus!
