use cantrip::command::{is_whitespace_char, InputCommand};
use cantrip::ui::{trim, InputEvent};

fn parse(line: &str) -> InputCommand {
    InputCommand::from(line.to_string())
}

#[test]
fn plain_lines_are_broadcast() {
    for line in ["hello", "", " /quit", "hello /nick Bob", "\u{e9}"] {
        assert_eq!(parse(line), InputCommand::Broadcast(line.to_string()), "{line:?}");
    }
}

#[test]
fn quit_stands_alone() {
    assert_eq!(parse("/quit"), InputCommand::Quit);
    assert_eq!(parse("/quit "), InputCommand::Broadcast("/quit ".to_string()));
    assert_eq!(parse("/quit now"), InputCommand::Broadcast("/quit now".to_string()));
    assert_eq!(parse("/Quit"), InputCommand::Broadcast("/Quit".to_string()));
    assert_eq!(parse("/quitx"), InputCommand::Broadcast("/quitx".to_string()));
}

#[test]
fn nick_and_roll_take_what_follows_the_first_white_space() {
    assert_eq!(parse("/nick Bob"), InputCommand::ChangeName("Bob".to_string()));
    assert_eq!(parse("/nick  Bob Smith "), InputCommand::ChangeName(" Bob Smith ".to_string()));
    assert_eq!(parse("/nick "), InputCommand::ChangeName(String::new()));
    assert_eq!(parse("/nick\tBob"), InputCommand::ChangeName("Bob".to_string()));
    assert_eq!(parse("/nick\u{3000}Bob"), InputCommand::ChangeName("Bob".to_string()));
    assert_eq!(parse("/roll 2d6+1"), InputCommand::DiceRoll("2d6+1".to_string()));
    assert_eq!(parse("/roll\n2d6 + 1"), InputCommand::DiceRoll("2d6 + 1".to_string()));
    assert_eq!(parse("/roll \u{e9}\u{4e2d}"), InputCommand::DiceRoll("\u{e9}\u{4e2d}".to_string()));
}

#[test]
fn other_commands_are_broadcast_as_they_are() {
    for line in ["/nick", "/roll", "/", "/ nick Bob", "/me waves", "/nickname Bob", "/NICK Bob", "/\u{e9} x"] {
        assert_eq!(parse(line), InputCommand::Broadcast(line.to_string()), "{line:?}");
    }
}

#[test]
fn parse_and_from_agree() {
    for line in ["/quit", "/nick a", "/roll d6", "text", "/other x"] {
        assert_eq!(InputCommand::parse(line.to_string()), parse(line));
    }
}

#[test]
fn white_space_is_what_the_standard_library_says() {
    for code in 0u32..=0x11_0000 {
        if let Some(c) = char::from_u32(code) {
            assert_eq!(is_whitespace_char(c), c.is_whitespace(), "{code:x}");
        }
    }
}

#[test]
fn trim_is_what_the_standard_library_does() {
    for text in ["", " ", "a", " a", "a ", " a b \t\n", "\u{a0}x\u{2003}", "\n\n", "  \u{e9}  ", "x\u{85}"] {
        assert_eq!(trim(text), text.trim(), "{text:?}");
    }
}

#[test]
fn a_read_line_is_trimmed_and_no_bytes_mean_the_end() {
    assert_eq!(InputEvent::from_line("", 0), InputEvent::Quit);
    assert_eq!(InputEvent::from_line("hello\n", 6), InputEvent::Text("hello".to_string()));
    assert_eq!(InputEvent::from_line("  /nick Bob \r\n", 14), InputEvent::Text("/nick Bob".to_string()));
    assert_eq!(InputEvent::from_line("\n", 1), InputEvent::Text(String::new()));
}

#[test]
fn an_entered_text_counts_unless_blank() {
    assert_eq!(InputEvent::from_entered(String::new()), InputEvent::Redraw);
    assert_eq!(InputEvent::from_entered(" \t ".to_string()), InputEvent::Redraw);
    assert_eq!(InputEvent::from_entered(" hi ".to_string()), InputEvent::Text(" hi ".to_string()));
}
