use cantrip::dice::Dice;
use cantrip::message::{DecodeError, Message, MessageBody, SealError};
use cantrip::peer::PeerId;

fn test_key() -> [u8; 32] {
    [42u8; 32]
}

fn test_id() -> PeerId {
    PeerId::from_bytes([0u8; 32])
}

fn test_text() -> String {
    String::from("TEST string -/&#\\/(546123;`\u{c3}\u{a9}")
}

fn test_message() -> Message {
    let body = MessageBody::Text {
        from: test_id(),
        text: test_text(),
    };
    Message::new(body, &test_key()).unwrap()
}

fn sample_bodies() -> Vec<MessageBody> {
    let from = PeerId::from_bytes([0xa5; 32]);
    vec![
        MessageBody::Joined { from, name: "Alice".to_string() },
        MessageBody::Joined { from, name: String::new() },
        MessageBody::Text { from, text: "hi".to_string() },
        MessageBody::Text { from, text: "quote \" backslash \\ slash / tab \t nl \n cr \r".to_string() },
        MessageBody::Text { from, text: "\u{0}\u{1}\u{8}\u{b}\u{c}\u{1f}\u{7f}".to_string() },
        MessageBody::Text { from, text: "\u{e9} \u{4e2d}\u{6587} \u{1f600} \u{2028}".to_string() },
        MessageBody::Left { from },
        MessageBody::DiceRoll {
            from,
            result: 9,
            dice: Dice::new(2, 6, -3).unwrap(),
            rolls: vec![6, 6],
        },
        MessageBody::DiceRoll {
            from,
            result: u32::MAX,
            dice: Dice::from_parts(u32::MAX, 0, i32::MIN),
            rolls: vec![],
        },
        MessageBody::DiceRoll {
            from,
            result: 0,
            dice: Dice::from_parts(0, u32::MAX, i32::MAX),
            rolls: vec![0, 1, u32::MAX],
        },
    ]
}

#[test]
fn test_encrypt_decrypt() {
    let message = test_message();
    let decrypted = message.decrypt(&test_key()).unwrap();

    if let MessageBody::Text { from, text } = decrypted {
        assert_eq!(from, test_id());
        assert_eq!(text, test_text());
    } else {
        panic!("Decryption went wrong")
    }
}

#[test]
fn test_decrypt_fail_wrong_key() {
    let wrong_key = test_key().map(|u| u.wrapping_add(1));

    let message = test_message();
    let decrypted_res = message.decrypt(&wrong_key);

    assert!(decrypted_res.is_err());
}

#[test]
fn wrong_key_gives_authentication_error() {
    let wrong_key = test_key().map(|u| u.wrapping_add(1));
    assert_eq!(
        test_message().decrypt(&wrong_key),
        Err(DecodeError::AuthenticationOrFormat)
    );
}

#[test]
fn every_kind_of_message_round_trips() {
    for body in sample_bodies() {
        let message = Message::new(body.clone(), &test_key()).unwrap();
        assert_eq!(message.decrypt(&test_key()), Ok(body));
    }
}

#[test]
fn round_trip_through_the_wire() {
    for body in sample_bodies() {
        let message = Message::new(body.clone(), &test_key()).unwrap();
        let wire = message.to_vec();
        let received = Message::from_bytes(&wire).unwrap();
        assert_eq!(received, message);
        assert_eq!(received.decrypt(&test_key()), Ok(body));
    }
}

#[test]
fn flipping_any_ciphertext_bit_is_detected() {
    let message = test_message();
    let ciphertext = message.ciphertext().clone();
    for index in 0..ciphertext.len() {
        for bit in 0..8 {
            let mut tampered = ciphertext.clone();
            tampered[index] ^= 1 << bit;
            let envelope = Message::from_parts(tampered, *message.nonce());
            assert_eq!(
                envelope.decrypt(&test_key()),
                Err(DecodeError::AuthenticationOrFormat)
            );
        }
    }
}

#[test]
fn changed_nonce_is_detected() {
    let message = test_message();
    let mut nonce = *message.nonce();
    nonce[0] ^= 1;
    let envelope = Message::from_parts(message.ciphertext().clone(), nonce);
    assert_eq!(
        envelope.decrypt(&test_key()),
        Err(DecodeError::AuthenticationOrFormat)
    );
}

#[test]
fn truncated_ciphertext_is_refused() {
    let message = test_message();
    for keep in [0usize, 1, 15, 16, 17] {
        let short = message.ciphertext()[..keep].to_vec();
        let envelope = Message::from_parts(short, *message.nonce());
        assert_eq!(
            envelope.decrypt(&test_key()),
            Err(DecodeError::AuthenticationOrFormat)
        );
    }
}

#[test]
fn nonces_do_not_repeat() {
    let mut seen = std::collections::HashSet::new();
    let mut envelopes = std::collections::HashSet::new();
    for _ in 0..1000 {
        let message = test_message();
        assert!(seen.insert(*message.nonce()));
        assert!(envelopes.insert(message.to_vec()));
    }
    assert_eq!(seen.len(), 1000);
}

#[test]
fn encryption_is_deterministic_given_the_nonce() {
    let body = MessageBody::Text { from: test_id(), text: "hi".to_string() };
    let nonce = [9u8; 24];
    let first = body.encrypt(&nonce, &test_key()).unwrap();
    let second = body.encrypt(&nonce, &test_key()).unwrap();
    assert_eq!(first, second);
    assert_eq!(first.len(), body.to_vec().len() + 16);
    assert_ne!(&first[..body.to_vec().len()], &body.to_vec()[..]);
    let envelope = Message::from_parts(first, nonce);
    assert_eq!(envelope.decrypt(&test_key()), Ok(body));
}

#[test]
fn sealed_bytes_that_are_no_message_give_the_same_error() {
    // Seal plaintext that is valid for the cipher but is no message.
    let body = MessageBody::Left { from: test_id() };
    let nonce = [1u8; 24];
    let sealed = body.encrypt(&nonce, &test_key()).unwrap();
    let other_key = [7u8; 32];
    let envelope = Message::from_parts(sealed, nonce);
    assert_eq!(
        envelope.decrypt(&other_key),
        Err(DecodeError::AuthenticationOrFormat)
    );
    assert_eq!(
        MessageBody::from_bytes(b"{\"Left\":{}}"),
        Err(DecodeError::AuthenticationOrFormat)
    );
}

#[test]
fn envelope_wire_form_is_exact() {
    let envelope = Message::from_parts(vec![0, 7, 255, 10], [3u8; 24]);
    let expected = format!(
        "{{\"ciphertext\":[0,7,255,10],\"nonce\":[{}]}}",
        vec!["3"; 24].join(",")
    );
    assert_eq!(envelope.to_vec(), expected.into_bytes());
}

#[test]
fn envelope_with_empty_ciphertext_round_trips() {
    let envelope = Message::from_parts(vec![], [0u8; 24]);
    let wire = envelope.to_vec();
    assert_eq!(Message::from_bytes(&wire), Ok(envelope));
}

#[test]
fn malformed_wire_is_refused() {
    let good = Message::from_parts(vec![1, 2, 3], [5u8; 24]).to_vec();
    assert!(Message::from_bytes(&good).is_ok());

    let mut cases: Vec<Vec<u8>> = vec![
        Vec::new(),
        b"{}".to_vec(),
        b"not json".to_vec(),
        b"{\"ciphertext\":[1,2,3]}".to_vec(),
        b"{\"ciphertext\":[1,2,3],\"nonce\":[]}".to_vec(),
    ];
    // truncated at every length
    for keep in 0..good.len() {
        cases.push(good[..keep].to_vec());
    }
    // trailing bytes
    let mut longer = good.clone();
    longer.push(b' ');
    cases.push(longer);
    // a nonce of 23 and of 25 bytes
    for count in [23usize, 25] {
        cases.push(
            format!(
                "{{\"ciphertext\":[1],\"nonce\":[{}]}}",
                vec!["1"; count].join(",")
            )
            .into_bytes(),
        );
    }
    // numbers that are no bytes, and numbers written another way
    for number in ["256", "-1", "01", "1.0", "1e0", "+1", " 1", "1,", ",1"] {
        cases.push(
            format!(
                "{{\"ciphertext\":[{}],\"nonce\":[{}]}}",
                number,
                vec!["1"; 24].join(",")
            )
            .into_bytes(),
        );
    }
    for case in cases {
        assert_eq!(
            Message::from_bytes(&case),
            Err(DecodeError::Malformed),
            "{:?}",
            String::from_utf8_lossy(&case)
        );
    }
}

#[test]
fn body_serialized_forms_are_exact() {
    let from = PeerId::from_bytes([0x0f; 32]);
    let hex = "0f".repeat(32);
    assert_eq!(
        MessageBody::Joined { from, name: "Al\"ice".to_string() }.to_vec(),
        format!("{{\"Joined\":{{\"from\":\"{hex}\",\"name\":\"Al\\\"ice\"}}}}").into_bytes()
    );
    assert_eq!(
        MessageBody::Text { from, text: "a\nb\u{1}".to_string() }.to_vec(),
        format!("{{\"Text\":{{\"from\":\"{hex}\",\"text\":\"a\\nb\\u0001\"}}}}").into_bytes()
    );
    assert_eq!(
        MessageBody::Left { from }.to_vec(),
        format!("{{\"Left\":{{\"from\":\"{hex}\"}}}}").into_bytes()
    );
    assert_eq!(
        MessageBody::DiceRoll {
            from,
            result: 12,
            dice: Dice::new(3, 6, -2).unwrap(),
            rolls: vec![4, 5, 5],
        }
        .to_vec(),
        format!(
            "{{\"DiceRoll\":{{\"from\":\"{hex}\",\"result\":12,\"dice\":{{\"count\":3,\"sides\":6,\"modifier\":-2}},\"rolls\":[4,5,5]}}}}"
        )
        .into_bytes()
    );
}

#[test]
fn body_reader_inverts_writer() {
    for body in sample_bodies() {
        assert_eq!(MessageBody::from_bytes(&body.to_vec()), Ok(body));
    }
}

#[test]
fn body_reader_refuses_other_spellings() {
    let hex = "0f".repeat(32);
    let cases = [
        format!("{{\"Left\":{{\"from\":\"{}\"}}}}", "0F".repeat(32)),
        format!("{{\"Left\":{{\"from\":\"{}\"}}}}", "0f".repeat(31)),
        format!("{{\"Left\":{{\"from\":\"{}\"}}}}", "0g".repeat(32)),
        format!("{{\"Left\": {{\"from\":\"{hex}\"}}}}"),
        format!("{{\"Left\":{{\"from\":\"{hex}\"}}}} "),
        format!("{{\"Gone\":{{\"from\":\"{hex}\"}}}}"),
        format!("{{\"Text\":{{\"from\":\"{hex}\",\"text\":\"\\u0041\"}}}}"),
        format!("{{\"Text\":{{\"from\":\"{hex}\",\"text\":\"\\/\"}}}}"),
        format!("{{\"Text\":{{\"from\":\"{hex}\",\"text\":\"\\u000A\"}}}}"),
        format!("{{\"Text\":{{\"from\":\"{hex}\",\"text\":\"a\"}}"),
        format!("{{\"Text\":{{\"from\":\"{hex}\",\"text\":\"a}}}}"),
        format!("{{\"Text\":{{\"from\":\"{hex}\",\"name\":\"a\"}}}}"),
        format!("{{\"DiceRoll\":{{\"from\":\"{hex}\",\"result\":4294967296,\"dice\":{{\"count\":1,\"sides\":6,\"modifier\":0}},\"rolls\":[]}}}}"),
        format!("{{\"DiceRoll\":{{\"from\":\"{hex}\",\"result\":1,\"dice\":{{\"count\":1,\"sides\":6,\"modifier\":-0}},\"rolls\":[]}}}}"),
        format!("{{\"DiceRoll\":{{\"from\":\"{hex}\",\"result\":1,\"dice\":{{\"count\":1,\"sides\":6,\"modifier\":2147483648}},\"rolls\":[]}}}}"),
    ];
    for case in cases {
        assert_eq!(
            MessageBody::from_bytes(case.as_bytes()),
            Err(DecodeError::AuthenticationOrFormat),
            "{case}"
        );
    }
    let mut invalid_utf8 = format!("{{\"Text\":{{\"from\":\"{hex}\",\"text\":\"").into_bytes();
    invalid_utf8.push(0xff);
    invalid_utf8.extend_from_slice(b"\"}}");
    assert_eq!(
        MessageBody::from_bytes(&invalid_utf8),
        Err(DecodeError::AuthenticationOrFormat)
    );
}

#[test]
fn extreme_modifier_round_trips() {
    let from = test_id();
    let body = MessageBody::DiceRoll {
        from,
        result: 1,
        dice: Dice::from_parts(1, 6, i32::MIN),
        rolls: vec![1],
    };
    let text = String::from_utf8(body.to_vec()).unwrap();
    assert!(text.contains("\"modifier\":-2147483648"));
    assert_eq!(MessageBody::from_bytes(text.as_bytes()), Ok(body));
}

#[test]
fn decode_error_texts() {
    assert_eq!(DecodeError::Malformed.message(), "Malformed data");
    assert_eq!(
        DecodeError::AuthenticationOrFormat.message(),
        "Failed to decrypt a message"
    );
    assert_eq!(
        DecodeError::MissingPrefix.message(),
        "Invalid ticket: missing 'ticket-' prefix"
    );
    assert_eq!(
        DecodeError::BadEncoding.message(),
        "Invalid ticket: not valid base64"
    );
}

#[test]
fn seal_error_text() {
    assert_eq!(
        SealError::MessageTooLong.message(),
        "Unexpected failure while encrypting a message."
    );
}

#[test]
fn long_messages_are_sealed() {
    let body = MessageBody::Text { from: test_id(), text: "x".repeat(1 << 20) };
    let message = Message::new(body.clone(), &test_key()).unwrap();
    let received = Message::from_bytes(&message.to_vec()).unwrap();
    assert_eq!(received.decrypt(&test_key()), Ok(body));
}

#[test]
fn body_names_its_sender() {
    for body in sample_bodies() {
        assert_eq!(body.sender(), PeerId::from_bytes([0xa5; 32]));
    }
}
