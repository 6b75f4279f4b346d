//! What the user interface hands to the application.

use crate::command::{is_whitespace, is_whitespace_char};
use crate::dice::dice_text;
use crate::events::{ChatEvent, ChatEventView};
use crate::text::{ascii_string, chars_of, dec_digits, write_nat};
use vstd::prelude::*;
use vstd::string::{StrSliceExecFns, StringExecFns};

verus! {

/// What the input source reports.
#[derive(Clone, Debug, PartialEq, Eq)]
pub enum InputEvent {
    /// The user entered this.
    Text(String),
    /// The input ended.
    Quit,
    /// Nothing was entered, but the screen may have changed.
    Redraw,
}

/// The mathematical content of an [`InputEvent`].
pub enum InputEventView {
    Text(Seq<char>),
    Quit,
    Redraw,
}

impl View for InputEvent {
    type V = InputEventView;

    open spec fn view(&self) -> InputEventView {
        match *self {
            InputEvent::Text(text) => InputEventView::Text(text@),
            InputEvent::Quit => InputEventView::Quit,
            InputEvent::Redraw => InputEventView::Redraw,
        }
    }
}

/// The first position at or after `from` that holds no white space.
pub open spec fn trim_start_at(s: Seq<char>, from: int) -> int
    decreases s.len() - from,
{
    if from < 0 || from >= s.len() {
        s.len() as int
    } else if is_whitespace(s[from]) {
        trim_start_at(s, from + 1)
    } else {
        from
    }
}

/// The end of the text before `to` once the white space at its end is cut
/// off, but no less than `low`.
pub open spec fn trim_end_at(s: Seq<char>, low: int, to: int) -> int
    decreases to - low,
{
    if to <= low || to > s.len() {
        low
    } else if is_whitespace(s[to - 1]) {
        trim_end_at(s, low, to - 1)
    } else {
        to
    }
}

/// The text without the white space at its start and at its end.
pub open spec fn trimmed(s: Seq<char>) -> Seq<char> {
    let start = trim_start_at(s, 0);
    let end = trim_end_at(s, start, s.len() as int);
    s.subrange(start, end)
}

/// The text without the white space at its start and at its end.
pub fn trim(s: &str) -> (t: &str)
    ensures
        t@ == trimmed(s@),
{
    let n = s.unicode_len();
    let mut start: usize = 0;
    while start < n && is_whitespace_char(s.get_char(start))
        invariant
            start <= n,
            n == s@.len(),
            trim_start_at(s@, 0) == trim_start_at(s@, start as int),
        decreases n - start,
    {
        start += 1;
    }
    let mut end: usize = n;
    while end > start && is_whitespace_char(s.get_char(end - 1))
        invariant
            start <= end <= n,
            n == s@.len(),
            trim_end_at(s@, start as int, n as int) == trim_end_at(s@, start as int, end as int),
        decreases end - start,
    {
        end -= 1;
    }
    s.substring_char(start, end)
}

impl InputEvent {
    /// What a line read from the standard input reports: the end of the
    /// input where nothing was read, and else the line without the white
    /// space around it.
    pub fn from_line(line: &str, bytes_read: usize) -> (event: InputEvent)
        ensures
            event@ == if bytes_read == 0 {
                InputEventView::Quit
            } else {
                InputEventView::Text(trimmed(line@))
            },
    {
        if bytes_read == 0 {
            InputEvent::Quit
        } else {
            InputEvent::Text(trim(line).to_owned())
        }
    }

    /// What an entered text reports: the text, unless it is empty or all
    /// white space.
    pub fn from_entered(text: String) -> (event: InputEvent)
        ensures
            event@ == if trimmed(text@).len() == 0 {
                InputEventView::Redraw
            } else {
                InputEventView::Text(text@)
            },
    {
        if trim(text.as_str()).unicode_len() == 0 {
            InputEvent::Redraw
        } else {
            InputEvent::Text(text)
        }
    }
}

/// The numbers of a list in decimal, separated by a comma and a space.
pub open spec fn spaced_list(xs: Seq<u32>) -> Seq<u8>
    decreases xs.len(),
{
    if xs.len() == 0 {
        Seq::empty()
    } else if xs.len() == 1 {
        dec_digits(xs[0] as nat)
    } else {
        spaced_list(xs.drop_last()) + seq![44u8, 32u8] + dec_digits(xs.last() as nat)
    }
}

/// The text that shows a list of rolls: the numbers in square brackets.
pub open spec fn rolls_text(rolls: Seq<u32>) -> Seq<char> {
    chars_of(seq![91u8] + spaced_list(rolls) + seq![93u8])
}

/// The name that a roll is shown under: its author, or `You` for a roll
/// of this participant.
pub open spec fn roller(author: Option<Seq<char>>) -> Seq<char> {
    match author {
        Some(name) => name,
        None => "You"@,
    }
}

/// The line that the message list shows for an event, or nothing for an
/// event that shows no line.
pub open spec fn list_line(event: ChatEventView) -> Option<Seq<char>> {
    match event {
        ChatEventView::MessageReceived { author, content } => Some(author + ": "@ + content),
        ChatEventView::MessageSent(message) => Some("You: "@ + message),
        ChatEventView::PeerJoined(name) => Some(name + " joined the chat."@),
        ChatEventView::PeerLeft(name) => Some(name + " left the chat."@),
        ChatEventView::PeerNameChange { old, new } => Some(
            old + " changed their name to '"@ + new + "'."@,
        ),
        ChatEventView::SystemStatus(text) => Some("> "@ + text),
        ChatEventView::DiceRolled { result, rolls, dice, author } => Some(
            roller(author) + " rolled "@ + chars_of(dec_digits(result as nat)) + " from "@
                + dice_text(dice) + "  "@ + rolls_text(rolls),
        ),
        ChatEventView::Error(text) => Some("ERROR: "@ + text),
        ChatEventView::Redraw => None,
    }
}

/// Where a line of the console goes.
#[derive(Clone, Debug, PartialEq, Eq)]
pub enum ConsoleLine {
    /// To the standard output.
    Output(String),
    /// To the standard error.
    Error(String),
    /// Nowhere.
    Nothing,
}

/// The mathematical content of a [`ConsoleLine`].
pub enum ConsoleLineView {
    Output(Seq<char>),
    Error(Seq<char>),
    Nothing,
}

impl View for ConsoleLine {
    type V = ConsoleLineView;

    open spec fn view(&self) -> ConsoleLineView {
        match *self {
            ConsoleLine::Output(text) => ConsoleLineView::Output(text@),
            ConsoleLine::Error(text) => ConsoleLineView::Error(text@),
            ConsoleLine::Nothing => ConsoleLineView::Nothing,
        }
    }
}

/// The line that the console shows for an event. Errors go to the
/// standard error; what this participant sent and a request to redraw show
/// nothing.
pub open spec fn console_line(event: ChatEventView) -> ConsoleLineView {
    match event {
        ChatEventView::MessageReceived { author, content } => ConsoleLineView::Output(
            author + ": "@ + content,
        ),
        ChatEventView::PeerJoined(name) => ConsoleLineView::Output(
            "> "@ + name + " joined the room. Say hi!"@,
        ),
        ChatEventView::PeerLeft(name) => ConsoleLineView::Output("> "@ + name + " left the chat."@),
        ChatEventView::SystemStatus(text) => ConsoleLineView::Output("> "@ + text),
        ChatEventView::Error(text) => ConsoleLineView::Error("Error: "@ + text),
        ChatEventView::PeerNameChange { old, new } => ConsoleLineView::Output(
            "> "@ + old + " changed their name to "@ + new,
        ),
        ChatEventView::DiceRolled { result, rolls, dice, author } => ConsoleLineView::Output(
            roller(author) + " rolled "@ + chars_of(dec_digits(result as nat)) + " from "@
                + dice_text(dice) + " ("@ + rolls_text(rolls) + ")"@,
        ),
        ChatEventView::MessageSent(_) => ConsoleLineView::Nothing,
        ChatEventView::Redraw => ConsoleLineView::Nothing,
    }
}

proof fn lemma_spaced_list_push(xs: Seq<u32>, x: u32)
    ensures
        spaced_list(xs.push(x)) == if xs.len() == 0 {
            dec_digits(x as nat)
        } else {
            spaced_list(xs) + seq![44u8, 32u8] + dec_digits(x as nat)
        },
{
    assert(xs.push(x).drop_last() =~= xs);
}

/// The text that shows a list of rolls.
pub fn format_rolls(rolls: &[u32]) -> (text: String)
    ensures
        text@ == rolls_text(rolls@),
{
    let mut out: Vec<u8> = Vec::new();
    out.push(91);
    let mut i: usize = 0;
    assert(out@ =~= seq![91u8] + spaced_list(rolls@.take(0)));
    while i < rolls.len()
        invariant
            i <= rolls@.len(),
            out@ == seq![91u8] + spaced_list(rolls@.take(i as int)),
        decreases rolls@.len() - i,
    {
        proof {
            lemma_spaced_list_push(rolls@.take(i as int), rolls@[i as int]);
            assert(rolls@.take(i as int).push(rolls@[i as int]) =~= rolls@.take(i as int + 1));
        }
        if i > 0 {
            out.push(44);
            out.push(32);
        }
        write_nat(&mut out, rolls[i] as u64);
        i += 1;
        assert(out@ =~= seq![91u8] + spaced_list(rolls@.take(i as int)));
    }
    assert(rolls@.take(i as int) =~= rolls@);
    out.push(93);
    assert(out@ =~= seq![91u8] + spaced_list(rolls@) + seq![93u8]);
    ascii_string(out.as_slice())
}

fn number_text(n: u32) -> (text: String)
    ensures
        text@ == chars_of(dec_digits(n as nat)),
{
    let mut out: Vec<u8> = Vec::new();
    write_nat(&mut out, n as u64);
    assert(out@ =~= dec_digits(n as nat));
    ascii_string(out.as_slice())
}

fn roller_name(author: &Option<String>) -> (name: &str)
    ensures
        name@ == roller(
            match *author {
                Some(a) => Some(a@),
                None => None,
            },
        ),
{
    match author {
        Some(name) => name.as_str(),
        None => "You",
    }
}

/// The line that the message list shows for an event.
pub fn format_list_line(event: &ChatEvent) -> (line: Option<String>)
    ensures
        match line {
            Some(text) => list_line(event@) == Some(text@),
            None => list_line(event@) is None,
        },
{
    match event {
        ChatEvent::MessageReceived { author, content } => {
            let mut text = author.clone();
            text.append(": ");
            text.append(content.as_str());
            Some(text)
        },
        ChatEvent::MessageSent(message) => {
            let mut text = "You: ".to_owned();
            text.append(message.as_str());
            Some(text)
        },
        ChatEvent::PeerJoined(name) => {
            let mut text = name.clone();
            text.append(" joined the chat.");
            Some(text)
        },
        ChatEvent::PeerLeft(name) => {
            let mut text = name.clone();
            text.append(" left the chat.");
            Some(text)
        },
        ChatEvent::PeerNameChange { old, new } => {
            let mut text = old.clone();
            text.append(" changed their name to '");
            text.append(new.as_str());
            text.append("'.");
            Some(text)
        },
        ChatEvent::SystemStatus(status) => {
            let mut text = "> ".to_owned();
            text.append(status.as_str());
            Some(text)
        },
        ChatEvent::DiceRolled { result, rolls, dice, author } => {
            let mut text = roller_name(author).to_owned();
            text.append(" rolled ");
            text.append(number_text(*result).as_str());
            text.append(" from ");
            text.append(dice.to_string().as_str());
            text.append("  ");
            text.append(format_rolls(rolls.as_slice()).as_str());
            Some(text)
        },
        ChatEvent::Error(message) => {
            let mut text = "ERROR: ".to_owned();
            text.append(message.as_str());
            Some(text)
        },
        ChatEvent::Redraw => None,
    }
}

/// The line that the console shows for an event.
pub fn format_console_line(event: &ChatEvent) -> (line: ConsoleLine)
    ensures
        line@ == console_line(event@),
{
    match event {
        ChatEvent::MessageReceived { author, content } => {
            let mut text = author.clone();
            text.append(": ");
            text.append(content.as_str());
            ConsoleLine::Output(text)
        },
        ChatEvent::PeerJoined(name) => {
            let mut text = "> ".to_owned();
            text.append(name.as_str());
            text.append(" joined the room. Say hi!");
            ConsoleLine::Output(text)
        },
        ChatEvent::PeerLeft(name) => {
            let mut text = "> ".to_owned();
            text.append(name.as_str());
            text.append(" left the chat.");
            ConsoleLine::Output(text)
        },
        ChatEvent::SystemStatus(status) => {
            let mut text = "> ".to_owned();
            text.append(status.as_str());
            ConsoleLine::Output(text)
        },
        ChatEvent::Error(message) => {
            let mut text = "Error: ".to_owned();
            text.append(message.as_str());
            ConsoleLine::Error(text)
        },
        ChatEvent::PeerNameChange { old, new } => {
            let mut text = "> ".to_owned();
            text.append(old.as_str());
            text.append(" changed their name to ");
            text.append(new.as_str());
            ConsoleLine::Output(text)
        },
        ChatEvent::DiceRolled { result, rolls, dice, author } => {
            let mut text = roller_name(author).to_owned();
            text.append(" rolled ");
            text.append(number_text(*result).as_str());
            text.append(" from ");
            text.append(dice.to_string().as_str());
            text.append(" (");
            text.append(format_rolls(rolls.as_slice()).as_str());
            text.append(")");
            ConsoleLine::Output(text)
        },
        ChatEvent::MessageSent(_) => ConsoleLine::Nothing,
        ChatEvent::Redraw => ConsoleLine::Nothing,
    }
}

/// The list of messages on the screen, and the line that is selected.
pub struct TuiModel {
    messages: Vec<String>,
    selected: Option<usize>,
}

/// The mathematical content of a [`TuiModel`].
pub struct TuiModelView {
    pub messages: Seq<Seq<char>>,
    pub selected: Option<usize>,
}

/// The texts of a list of lines, in order.
pub open spec fn lines_view(lines: Seq<String>) -> Seq<Seq<char>> {
    lines.map_values(|line: String| line@)
}

impl View for TuiModel {
    type V = TuiModelView;

    closed spec fn view(&self) -> TuiModelView {
        TuiModelView { messages: lines_view(self.messages@), selected: self.selected }
    }
}

/// Whether the selection follows the end of a list of `len` lines: nothing
/// is selected, or the last line or one beyond it.
pub open spec fn at_bottom(selected: Option<usize>, len: nat) -> bool {
    match selected {
        None => true,
        Some(s) => s + 1 >= len,
    }
}

/// The model after a line was added at the end. A selection that follows
/// the end moves to the new line.
pub open spec fn pushed(model: TuiModelView, line: Seq<char>) -> TuiModelView {
    TuiModelView {
        messages: model.messages.push(line),
        selected: if at_bottom(model.selected, model.messages.len()) {
            Some(model.messages.len() as usize)
        } else {
            model.selected
        },
    }
}

/// The model after scrolling up by a line: the selection moves up, but not
/// above the first line.
pub open spec fn scrolled_up(model: TuiModelView) -> TuiModelView {
    TuiModelView {
        selected: match model.selected {
            Some(s) => Some(if s == 0 { 0usize } else { (s - 1) as usize }),
            None => None,
        },
        ..model
    }
}

/// The model after scrolling down by a line: the selection moves down,
/// unless that would leave the list.
pub open spec fn scrolled_down(model: TuiModelView) -> TuiModelView {
    match model.selected {
        Some(s) => if s < usize::MAX && s + 1 < model.messages.len() {
            TuiModelView { selected: Some((s + 1) as usize), ..model }
        } else {
            model
        },
        None => model,
    }
}

/// The model after an event. An event with a line adds the line at the
/// end; the line of a changed name leaves the selection where it is.
pub open spec fn applied(model: TuiModelView, event: ChatEventView) -> TuiModelView {
    match list_line(event) {
        None => model,
        Some(line) => if event is PeerNameChange {
            TuiModelView { messages: model.messages.push(line), ..model }
        } else {
            pushed(model, line)
        },
    }
}

impl TuiModel {
    /// An empty list with nothing selected.
    pub fn new() -> (model: TuiModel)
        ensures
            model@ == (TuiModelView { messages: Seq::empty(), selected: None }),
    {
        let model = TuiModel { messages: Vec::new(), selected: None };
        assert(lines_view(model.messages@) =~= Seq::<Seq<char>>::empty());
        model
    }

    /// The lines of the list.
    pub fn messages(&self) -> (lines: &Vec<String>)
        ensures
            lines_view(lines@) == self@.messages,
    {
        &self.messages
    }

    /// The selected line, if any.
    pub fn selected(&self) -> (selected: Option<usize>)
        ensures
            selected == self@.selected,
    {
        self.selected
    }

    /// Adds a line at the end.
    pub fn push_msg(&mut self, msg: String)
        ensures
            final(self)@ == pushed(old(self)@, msg@),
    {
        let len = self.messages.len();
        let follows = match self.selected {
            None => true,
            Some(s) => s >= len.saturating_sub(1),
        };
        let ghost before = lines_view(self.messages@);
        self.messages.push(msg);
        assert(lines_view(self.messages@) =~= before.push(msg@));
        if follows {
            self.selected = Some(len);
        }
    }

    /// Scrolls up by a line.
    pub fn scroll_up(&mut self)
        ensures
            final(self)@ == scrolled_up(old(self)@),
    {
        self.selected = match self.selected {
            Some(s) => Some(s.saturating_sub(1)),
            None => None,
        };
    }

    /// Scrolls down by a line.
    pub fn scroll_down(&mut self)
        ensures
            final(self)@ == scrolled_down(old(self)@),
    {
        if let Some(s) = self.selected {
            let next = s.saturating_add(1);
            if next < self.messages.len() {
                self.selected = Some(next);
            }
        }
    }

    /// Shows an event in the list.
    pub fn apply_event(&mut self, event: &ChatEvent)
        ensures
            final(self)@ == applied(old(self)@, event@),
    {
        match format_list_line(event) {
            None => {},
            Some(line) => match event {
                ChatEvent::PeerNameChange { .. } => {
                    let ghost before = lines_view(self.messages@);
                    self.messages.push(line);
                    assert(lines_view(self.messages@) =~= before.push(line@));
                },
                _ => {
                    self.push_msg(line);
                },
            },
        }
    }
}

} // verus!
