use cantrip::dice::Dice;
use cantrip::events::ChatEvent;
use cantrip::ui::{format_console_line, format_list_line, format_rolls, ConsoleLine, TuiModel};

fn roll(author: Option<&str>) -> ChatEvent {
    ChatEvent::DiceRolled {
        result: 11,
        rolls: vec![4, 5],
        dice: Dice::new(2, 6, 2).unwrap(),
        author: author.map(str::to_string),
    }
}

fn events_and_lines() -> Vec<(ChatEvent, Option<String>, ConsoleLine)> {
    let out = |text: &str| ConsoleLine::Output(text.to_string());
    vec![
        (
            ChatEvent::MessageReceived { author: "Alice".to_string(), content: "hi".to_string() },
            Some("Alice: hi".to_string()),
            out("Alice: hi"),
        ),
        (ChatEvent::MessageSent("hello".to_string()), Some("You: hello".to_string()), ConsoleLine::Nothing),
        (
            ChatEvent::PeerJoined("Alice".to_string()),
            Some("Alice joined the chat.".to_string()),
            out("> Alice joined the room. Say hi!"),
        ),
        (
            ChatEvent::PeerLeft("Alice".to_string()),
            Some("Alice left the chat.".to_string()),
            out("> Alice left the chat."),
        ),
        (
            ChatEvent::PeerNameChange { old: "Alice".to_string(), new: "Al".to_string() },
            Some("Alice changed their name to 'Al'.".to_string()),
            out("> Alice changed their name to Al"),
        ),
        (
            ChatEvent::SystemStatus("connected!".to_string()),
            Some("> connected!".to_string()),
            out("> connected!"),
        ),
        (
            roll(Some("Bob")),
            Some(format!("{} rolled {} from {}  {:?}", "Bob", 11, "2d6+2", vec![4, 5])),
            out(&format!("{} rolled {} from {} ({:?})", "Bob", 11, "2d6+2", vec![4, 5])),
        ),
        (
            roll(None),
            Some("You rolled 11 from 2d6+2  [4, 5]".to_string()),
            out("You rolled 11 from 2d6+2 ([4, 5])"),
        ),
        (
            ChatEvent::Error("oops".to_string()),
            Some("ERROR: oops".to_string()),
            ConsoleLine::Error("Error: oops".to_string()),
        ),
        (ChatEvent::Redraw, None, ConsoleLine::Nothing),
    ]
}

#[test]
fn lines_of_events() {
    for (event, list, console) in events_and_lines() {
        assert_eq!(format_list_line(&event), list);
        assert_eq!(format_console_line(&event), console);
    }
}

#[test]
fn rolls_are_shown_like_a_debugged_list() {
    for rolls in [vec![], vec![7], vec![1, 2, 3], vec![0, u32::MAX, 10]] {
        assert_eq!(format_rolls(&rolls), format!("{rolls:?}"));
    }
}

#[test]
fn selection_follows_the_end() {
    let mut model = TuiModel::new();
    assert_eq!(model.selected(), None);
    model.push_msg("one".to_string());
    assert_eq!(model.selected(), Some(0));
    model.push_msg("two".to_string());
    model.push_msg("three".to_string());
    assert_eq!(model.selected(), Some(2));
    assert_eq!(model.messages(), &vec!["one".to_string(), "two".to_string(), "three".to_string()]);
}

#[test]
fn selection_stays_when_scrolled_away() {
    let mut model = TuiModel::new();
    for line in ["one", "two", "three", "four"] {
        model.push_msg(line.to_string());
    }
    model.scroll_up();
    model.scroll_up();
    assert_eq!(model.selected(), Some(1));
    model.push_msg("five".to_string());
    assert_eq!(model.selected(), Some(1));
    model.scroll_down();
    model.scroll_down();
    model.scroll_down();
    assert_eq!(model.selected(), Some(4));
    model.scroll_down();
    assert_eq!(model.selected(), Some(4));
    model.push_msg("six".to_string());
    assert_eq!(model.selected(), Some(5));
}

#[test]
fn scrolling_stops_at_the_ends() {
    let mut model = TuiModel::new();
    model.scroll_up();
    model.scroll_down();
    assert_eq!(model.selected(), None);
    model.push_msg("one".to_string());
    model.scroll_up();
    assert_eq!(model.selected(), Some(0));
    model.scroll_up();
    assert_eq!(model.selected(), Some(0));
    model.scroll_down();
    assert_eq!(model.selected(), Some(0));
}

#[test]
fn events_are_applied() {
    let mut model = TuiModel::new();
    model.apply_event(&ChatEvent::PeerJoined("Alice".to_string()));
    assert_eq!(model.selected(), Some(0));
    model.apply_event(&ChatEvent::Redraw);
    assert_eq!(model.messages().len(), 1);
    // the line of a changed name does not move the selection
    model.apply_event(&ChatEvent::PeerNameChange { old: "Alice".to_string(), new: "Al".to_string() });
    assert_eq!(model.selected(), Some(0));
    assert_eq!(
        model.messages(),
        &vec!["Alice joined the chat.".to_string(), "Alice changed their name to 'Al'.".to_string()]
    );
    // the selection is no longer at the end, so it stays
    model.apply_event(&ChatEvent::Error("oops".to_string()));
    assert_eq!(model.selected(), Some(0));
    model.scroll_down();
    model.scroll_down();
    model.apply_event(&ChatEvent::SystemStatus("ok".to_string()));
    assert_eq!(model.selected(), Some(3));
    assert_eq!(model.messages()[3], "> ok");
}
