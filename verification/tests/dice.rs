use cantrip::dice::{Dice, DiceError};

fn dice_grammar() -> regex::Regex {
    regex::Regex::new(
        r"(?ix)^
        (?<count>[0-9]*)      # number of rolls (optional - implicit 1)
        d                     # literal 'd'
        (?<sides>[0-9]+)      # number of sides of the dice (required)
        \s*
        (?:                   # modifier (optional)
            (?<sign>[+-])         # sign for the modifier (required)
            \s*
            (?<mod_value>[0-9]+)   # the value of the modifier (required)
        )?
    $",
    )
    .unwrap()
}

fn parts(dice: Dice) -> (u32, u32, i32) {
    (dice.count(), dice.sides(), dice.modifier())
}

#[test]
fn new_checks_count_then_sides() {
    assert_eq!(parts(Dice::new(3, 6, 2).unwrap()), (3, 6, 2));
    assert_eq!(parts(Dice::new(0, 2, 0).unwrap()), (0, 2, 0));
    assert_eq!(parts(Dice::new(500, 1000, i32::MIN).unwrap()), (500, 1000, i32::MIN));
    assert_eq!(Dice::new(501, 6, 0), Err(DiceError::TooManyDice));
    assert_eq!(Dice::new(501, 1, 0), Err(DiceError::TooManyDice));
    assert_eq!(Dice::new(1, 1, 0), Err(DiceError::InvalidSides));
    assert_eq!(Dice::new(1, 0, 0), Err(DiceError::InvalidSides));
    assert_eq!(Dice::new(1, 1001, 0), Err(DiceError::InvalidSides));
    assert!(Dice::new(1, 2, 0).unwrap().is_rollable());
    assert!(!Dice::from_parts(501, 6, 0).is_rollable());
    assert!(!Dice::from_parts(1, 1, 0).is_rollable());
}

#[test]
fn from_str_reads_the_usual_forms() {
    let cases = [
        ("3d6+2", (3, 6, 2)),
        ("d20", (1, 20, 0)),
        ("D20", (1, 20, 0)),
        ("2D8 - 1", (2, 8, -1)),
        ("2d8-1", (2, 8, -1)),
        ("2d8 \t +  10", (2, 8, 10)),
        ("2d8   ", (2, 8, 0)),
        ("2d6\n", (2, 6, 0)),
        ("0d2", (0, 2, 0)),
        ("007d0006+000", (7, 6, 0)),
        ("500d1000-2147483647", (500, 1000, -2147483647)),
        ("1d6+2147483647", (1, 6, 2147483647)),
        ("1d6\u{a0}+\u{2003}1", (1, 6, 1)),
    ];
    for (text, expected) in cases {
        assert_eq!(parts(Dice::from_str(text).unwrap()), expected, "{text}");
    }
}

#[test]
fn from_str_reports_each_error() {
    let cases = [
        ("", DiceError::InvalidFormat),
        ("d", DiceError::InvalidFormat),
        ("6", DiceError::InvalidFormat),
        ("2x6", DiceError::InvalidFormat),
        (" 2d6", DiceError::InvalidFormat),
        ("2d6+", DiceError::InvalidFormat),
        ("2d6+1 ", DiceError::InvalidFormat),
        ("2d6 1", DiceError::InvalidFormat),
        ("2d6++1", DiceError::InvalidFormat),
        ("2d-6", DiceError::InvalidFormat),
        ("2 d6", DiceError::InvalidFormat),
        ("2d 6", DiceError::InvalidFormat),
        ("\u{664}d6", DiceError::InvalidFormat),
        ("4294967296d6", DiceError::NumberTooLarge),
        ("1d4294967296", DiceError::NumberTooLarge),
        ("1d6+2147483648", DiceError::NumberTooLarge),
        ("1d6-2147483648", DiceError::NumberTooLarge),
        ("99999999999999999999999999d6", DiceError::NumberTooLarge),
        ("501d6", DiceError::TooManyDice),
        ("501d1", DiceError::TooManyDice),
        ("4294967295d6", DiceError::TooManyDice),
        ("1d1", DiceError::InvalidSides),
        ("1d0", DiceError::InvalidSides),
        ("1d1001", DiceError::InvalidSides),
        ("d4294967295", DiceError::InvalidSides),
    ];
    for (text, expected) in cases {
        assert_eq!(Dice::from_str(text), Err(expected), "{text:?}");
    }
}

#[test]
fn from_str_accepts_what_the_grammar_accepts() {
    let grammar = dice_grammar();
    let alphabet = ['0', '1', '9', 'd', 'D', '+', '-', ' ', '\t', '\n', '\u{a0}', 'x', '\u{3000}'];
    // every text of up to five characters over the alphabet
    let mut texts: Vec<String> = vec![String::new()];
    let mut frontier: Vec<String> = vec![String::new()];
    for _ in 0..5 {
        let mut next = Vec::new();
        for text in &frontier {
            for c in alphabet {
                let mut longer = text.clone();
                longer.push(c);
                next.push(longer);
            }
        }
        texts.extend(next.iter().cloned());
        frontier = next;
    }
    assert!(texts.len() > 400_000);
    for text in texts {
        let ours = !matches!(Dice::from_str(&text), Err(DiceError::InvalidFormat));
        assert_eq!(ours, grammar.is_match(&text), "{text:?}");
    }
}

#[test]
fn from_str_values_agree_with_the_captures() {
    let grammar = dice_grammar();
    for text in ["3d6+2", "d20", "12D100 - 7", "0d2", "2d8   ", "1d6+0", "010d010-010"] {
        let captures = grammar.captures(text).unwrap();
        let count = match captures.name("count").map(|m| m.as_str()).filter(|s| !s.is_empty()) {
            Some(digits) => digits.parse::<u32>().unwrap(),
            None => 1,
        };
        let sides: u32 = captures["sides"].parse().unwrap();
        let modifier = match captures.name("mod_value") {
            Some(m) => {
                let value: i32 = m.as_str().parse().unwrap();
                if &captures["sign"] == "-" { -value } else { value }
            }
            None => 0,
        };
        assert_eq!(parts(Dice::from_str(text).unwrap()), (count, sides, modifier), "{text}");
    }
}

#[test]
fn to_string_shows_the_modifier_with_its_sign() {
    assert_eq!(Dice::new(3, 6, 2).unwrap().to_string(), "3d6+2");
    assert_eq!(Dice::new(1, 20, 0).unwrap().to_string(), "1d20");
    assert_eq!(Dice::new(2, 8, -1).unwrap().to_string(), "2d8-1");
    assert_eq!(Dice::new(500, 1000, i32::MIN).unwrap().to_string(), "500d1000-2147483648");
    assert_eq!(Dice::new(0, 2, i32::MAX).unwrap().to_string(), "0d2+2147483647");
    assert_eq!(Dice::from_parts(u32::MAX, 0, 0).to_string(), "4294967295d0");
}

#[test]
fn text_round_trips() {
    for dice in [
        Dice::new(3, 6, 2).unwrap(),
        Dice::new(1, 20, 0).unwrap(),
        Dice::new(2, 8, -1).unwrap(),
        Dice::new(500, 1000, -2147483647).unwrap(),
    ] {
        assert_eq!(Dice::from_str(&dice.to_string()), Ok(dice));
    }
}

#[test]
fn total_adds_the_modifier_and_saturates() {
    assert_eq!(Dice::new(3, 6, 2).unwrap().total(&vec![1, 2, 3]), 8);
    assert_eq!(Dice::new(3, 6, -2).unwrap().total(&vec![1, 2, 3]), 4);
    assert_eq!(Dice::new(3, 6, -7).unwrap().total(&vec![1, 2, 3]), 0);
    assert_eq!(Dice::new(3, 6, i32::MIN).unwrap().total(&vec![1, 2, 3]), 0);
    assert_eq!(Dice::new(0, 6, 5).unwrap().total(&vec![]), 5);
    assert_eq!(Dice::new(0, 6, -5).unwrap().total(&vec![]), 0);
    assert_eq!(Dice::new(1, 6, 1).unwrap().total(&vec![u32::MAX]), u32::MAX);
    assert_eq!(Dice::new(1, 6, -1).unwrap().total(&vec![u32::MAX]), u32::MAX - 1);
    assert_eq!(Dice::new(1, 6, -1).unwrap().total(&vec![u32::MAX, 1]), u32::MAX);
    assert_eq!(Dice::new(1, 6, i32::MIN).unwrap().total(&vec![u32::MAX; 8]), u32::MAX);
    assert_eq!(
        Dice::new(1, 6, i32::MIN).unwrap().total(&vec![u32::MAX, 5]),
        u32::MAX - (1u32 << 31) + 5
    );
}

#[test]
fn rolls_are_in_range_and_add_up() {
    for (count, sides, modifier) in [(0, 2, 0), (1, 2, 0), (5, 6, 3), (500, 1000, -100), (10, 20, -1000)] {
        let dice = Dice::new(count, sides, modifier).unwrap();
        for _ in 0..50 {
            let (result, rolls) = dice.roll();
            assert_eq!(rolls.len(), count as usize);
            assert!(rolls.iter().all(|r| 1 <= *r && *r <= sides));
            let sum: i64 = rolls.iter().map(|r| *r as i64).sum::<i64>() + modifier as i64;
            assert_eq!(result as i64, sum.max(0));
            assert_eq!(result, dice.total(&rolls));
        }
    }
}

#[test]
fn dice_that_a_message_carried_can_be_rolled() {
    let dice = Dice::from_parts(600, 6, 0);
    assert!(!dice.is_rollable());
    let (result, rolls) = dice.roll();
    assert_eq!(rolls.len(), 600);
    assert!(rolls.iter().all(|r| (1..=6).contains(r)));
    assert_eq!(result, rolls.iter().sum::<u32>());
    let one_sided = Dice::from_parts(3, 1, 4);
    assert_eq!(one_sided.roll(), (7, vec![1, 1, 1]));
}

#[test]
fn rolls_vary() {
    let dice = Dice::new(100, 1000, 0).unwrap();
    let (_, first) = dice.roll();
    let (_, second) = dice.roll();
    assert_ne!(first, second);
    let mut faces = std::collections::HashSet::new();
    let die = Dice::new(1, 6, 0).unwrap();
    for _ in 0..2000 {
        faces.insert(die.roll().1[0]);
    }
    assert_eq!(faces.len(), 6);
}

#[test]
fn dice_error_texts() {
    assert_eq!(
        DiceError::TooManyDice.message(),
        "Too many dice rolls! Please roll 500 dice or fewer."
    );
    assert_eq!(DiceError::InvalidSides.message(), "Invalid number of sides for the dice.");
    assert_eq!(DiceError::InvalidFormat.message(), "Invalid dice format");
    assert_eq!(
        DiceError::NumberTooLarge.message(),
        "number too large to fit in target type"
    );
}
