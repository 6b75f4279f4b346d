use cantrip::dice::Dice;
use cantrip::message::{Message, MessageBody};
use cantrip::peer::PeerId;
use serde_json::{Number, Value};

fn object(fields: Vec<(&str, Value)>) -> Value {
    let mut map = serde_json::Map::new();
    for (key, value) in fields {
        map.insert(key.to_string(), value);
    }
    Value::Object(map)
}

fn numbers(values: &[u32]) -> Value {
    Value::Array(values.iter().map(|n| Value::Number(Number::from(*n))).collect())
}

fn tricky_texts() -> Vec<String> {
    let mut texts = vec![
        String::new(),
        "plain".to_string(),
        "\"\\/\u{8}\u{c}\n\r\t".to_string(),
        "\u{7f}\u{80}\u{ff}\u{2028}\u{2029}\u{feff}\u{10ffff}".to_string(),
    ];
    let mut all_low = String::new();
    for c in 0u8..=0x7f {
        all_low.push(c as char);
    }
    texts.push(all_low);
    texts
}

#[test]
fn envelope_wire_is_what_serde_json_writes() {
    let ciphertext: Vec<u8> = (0..=255u8).collect();
    let nonce: [u8; 24] = core::array::from_fn(|i| (i * 11) as u8);
    let envelope = Message::from_parts(ciphertext.clone(), nonce);
    let as_u32 = |bytes: &[u8]| bytes.iter().map(|b| *b as u32).collect::<Vec<u32>>();
    let value = object(vec![
        ("ciphertext", numbers(&as_u32(&ciphertext))),
        ("nonce", numbers(&as_u32(&nonce))),
    ]);
    assert_eq!(envelope.to_vec(), serde_json::to_vec(&value).unwrap());
    assert_eq!(
        Message::from_bytes(&serde_json::to_vec(&value).unwrap()),
        Ok(envelope)
    );
}

#[test]
fn text_messages_are_what_serde_json_writes() {
    let from = PeerId::from_bytes([0x3c; 32]);
    for text in tricky_texts() {
        let body = MessageBody::Text { from, text: text.clone() };
        let value = object(vec![(
            "Text",
            object(vec![
                ("from", Value::String(from.to_hex())),
                ("text", Value::String(text.clone())),
            ]),
        )]);
        let written = serde_json::to_vec(&value).unwrap();
        assert_eq!(body.to_vec(), written, "{text:?}");
        assert_eq!(MessageBody::from_bytes(&written), Ok(body));
    }
}

#[test]
fn joined_and_left_are_what_serde_json_writes() {
    let from = PeerId::from_bytes([0xd4; 32]);
    for name in tricky_texts() {
        let value = object(vec![(
            "Joined",
            object(vec![
                ("from", Value::String(from.to_hex())),
                ("name", Value::String(name.clone())),
            ]),
        )]);
        assert_eq!(
            MessageBody::Joined { from, name }.to_vec(),
            serde_json::to_vec(&value).unwrap()
        );
    }
    let value = object(vec![("Left", object(vec![("from", Value::String(from.to_hex()))]))]);
    assert_eq!(
        MessageBody::Left { from }.to_vec(),
        serde_json::to_vec(&value).unwrap()
    );
}

#[test]
fn dice_rolls_read_as_the_same_json_value() {
    let from = PeerId::from_bytes([0x11; 32]);
    let body = MessageBody::DiceRoll {
        from,
        result: 4000000000,
        dice: Dice::from_parts(500, 1000, -2147483648),
        rolls: vec![1, 1000, 4294967295],
    };
    let value = object(vec![(
        "DiceRoll",
        object(vec![
            ("from", Value::String(from.to_hex())),
            ("result", Value::Number(Number::from(4000000000u32))),
            (
                "dice",
                object(vec![
                    ("count", Value::Number(Number::from(500u32))),
                    ("sides", Value::Number(Number::from(1000u32))),
                    ("modifier", Value::Number(Number::from(-2147483648i32))),
                ]),
            ),
            ("rolls", numbers(&[1, 1000, 4294967295])),
        ]),
    )]);
    let parsed: Value = serde_json::from_slice(&body.to_vec()).unwrap();
    assert_eq!(parsed, value);
}
