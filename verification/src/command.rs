//! What a line of user input asks for.

use vstd::prelude::*;
use vstd::string::StrSliceExecFns;

verus! {

/// What a line of user input asks for.
#[derive(Clone, Debug, PartialEq, Eq)]
pub enum InputCommand {
    /// Leave the room.
    Quit,
    /// Say this in the room.
    Broadcast(String),
    /// Take this name.
    ChangeName(String),
    /// Roll the dice that this text describes.
    DiceRoll(String),
}

/// The mathematical content of an [`InputCommand`].
pub enum InputCommandView {
    Quit,
    Broadcast(Seq<char>),
    ChangeName(Seq<char>),
    DiceRoll(Seq<char>),
}

impl View for InputCommand {
    type V = InputCommandView;

    open spec fn view(&self) -> InputCommandView {
        match *self {
            InputCommand::Quit => InputCommandView::Quit,
            InputCommand::Broadcast(text) => InputCommandView::Broadcast(text@),
            InputCommand::ChangeName(name) => InputCommandView::ChangeName(name@),
            InputCommand::DiceRoll(dice) => InputCommandView::DiceRoll(dice@),
        }
    }
}

/// Whether a character is white space.
pub open spec fn is_whitespace(c: char) -> bool {
    let u = c as u32;
    ||| 0x09 <= u <= 0x0D
    ||| u == 0x20
    ||| u == 0x85
    ||| u == 0xA0
    ||| u == 0x1680
    ||| 0x2000 <= u <= 0x200A
    ||| u == 0x2028
    ||| u == 0x2029
    ||| u == 0x202F
    ||| u == 0x205F
    ||| u == 0x3000
}

/// Whether a character is white space.
pub fn is_whitespace_char(c: char) -> (b: bool)
    ensures
        b == is_whitespace(c),
{
    let u = c as u32;
    (0x09 <= u && u <= 0x0D) || u == 0x20 || u == 0x85 || u == 0xA0 || u == 0x1680 || (0x2000 <= u
        && u <= 0x200A) || u == 0x2028 || u == 0x2029 || u == 0x202F || u == 0x205F || u == 0x3000
}

/// The position of the first white space at or after `from`, or the
/// length of the text where there is none.
pub open spec fn first_whitespace(s: Seq<char>, from: int) -> int
    decreases s.len() - from,
{
    if from < 0 || from >= s.len() {
        s.len() as int
    } else if is_whitespace(s[from]) {
        from
    } else {
        first_whitespace(s, from + 1)
    }
}

/// What a line asks for. A line that does not start with a slash is said
/// in the room. Otherwise the line is cut at its first white space:
/// `/nick` and `/roll` take what follows as their argument, `/quit` stands
/// alone, and any other line is said in the room as it is.
pub open spec fn command_of(line: Seq<char>) -> InputCommandView {
    if line.len() == 0 || line[0] != '/' {
        InputCommandView::Broadcast(line)
    } else {
        let cut = first_whitespace(line, 0);
        if cut < line.len() {
            let command = line.take(cut);
            let argument = line.skip(cut + 1);
            if command == "/nick"@ {
                InputCommandView::ChangeName(argument)
            } else if command == "/roll"@ {
                InputCommandView::DiceRoll(argument)
            } else {
                InputCommandView::Broadcast(line)
            }
        } else if line == "/quit"@ {
            InputCommandView::Quit
        } else {
            InputCommandView::Broadcast(line)
        }
    }
}

impl InputCommand {
    /// What the line asks for.
    pub fn parse(value: String) -> (command: InputCommand)
        ensures
            command@ == command_of(value@),
    {
        let line = value.as_str();
        let n = line.unicode_len();
        if n == 0 || line.get_char(0) != '/' {
            return InputCommand::Broadcast(value);
        }
        let mut cut: usize = 0;
        while cut < n && !is_whitespace_char(line.get_char(cut))
            invariant
                cut <= n,
                n == line@.len(),
                first_whitespace(line@, 0) == first_whitespace(line@, cut as int),
            decreases n - cut,
        {
            cut += 1;
        }
        if cut < n {
            let command = line.substring_char(0, cut).to_owned();
            let argument = line.substring_char(cut + 1, n).to_owned();
            proof {
                assert(line@.subrange(0, cut as int) =~= line@.take(cut as int));
                assert(line@.subrange(cut + 1, n as int) =~= line@.skip(cut + 1));
            }
            if command == "/nick".to_owned() {
                InputCommand::ChangeName(argument)
            } else if command == "/roll".to_owned() {
                InputCommand::DiceRoll(argument)
            } else {
                InputCommand::Broadcast(value)
            }
        } else if value == "/quit".to_owned() {
            InputCommand::Quit
        } else {
            InputCommand::Broadcast(value)
        }
    }
}

impl From<String> for InputCommand {
    fn from(value: String) -> (command: InputCommand)
        ensures
            command@ == command_of(value@),
    {
        InputCommand::parse(value)
    }
}

impl vstd::std_specs::convert::FromSpecImpl<String> for InputCommand {
    open spec fn obeys_from_spec() -> bool {
        false
    }

    open spec fn from_spec(value: String) -> InputCommand {
        InputCommand::Broadcast(value)
    }
}

} // verus!
