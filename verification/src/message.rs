//! The envelope codec: application messages, their encryption into
//! envelopes, and the wire form of an envelope.

use crate::bytes::{array_from_slice, bytes_equal};
use crate::dice::{Dice, DiceView};
use crate::escape::{
    json_string, lemma_parse_json_string, parse_json_string, read_json_string, write_json_string,
};
use crate::peer::{hex_text, PeerId};
use crate::text::{
    ascii, dec_digits, expect_ascii, has_at, int_text, lemma_has_at_concat,
    lemma_has_at_index, lemma_parse_hex_text, lemma_parse_int_text, lemma_parse_nat_dec,
    lemma_parse_num_list, narrow_to_bytes, nats_of_u32, nats_of_u8, num_list, parse_hex, parse_int,
    parse_nat, parse_num_list, push_ascii, read_hex, read_int, read_nat, read_num_list, skip_ascii,
    write_hex, write_int, write_nat, write_u32_list, write_u8_list,
};
use chacha20poly1305::aead::{Aead, AeadCore, KeyInit, OsRng};
use chacha20poly1305::XChaCha20Poly1305;
use vstd::prelude::*;

verus! {

/// Why a delivery, an envelope or a ticket could not be decoded.
#[derive(Clone, Copy, Debug, PartialEq, Eq)]
pub enum DecodeError {
    /// The bytes are not the wire form of an envelope, or not the binary
    /// form of a ticket.
    Malformed,
    /// The envelope does not open under the key, or what it holds is not a
    /// message. The two causes are deliberately not told apart.
    AuthenticationOrFormat,
    /// The ticket text does not start with the ticket prefix.
    MissingPrefix,
    /// The ticket text after the prefix is not valid base64.
    BadEncoding,
}

/// The text that describes an error.
pub open spec fn decode_error_text(e: DecodeError) -> Seq<char> {
    match e {
        DecodeError::Malformed => "Malformed data"@,
        DecodeError::AuthenticationOrFormat => "Failed to decrypt a message"@,
        DecodeError::MissingPrefix => "Invalid ticket: missing 'ticket-' prefix"@,
        DecodeError::BadEncoding => "Invalid ticket: not valid base64"@,
    }
}

impl DecodeError {
    /// The text that describes the error.
    pub fn message(&self) -> (text: String)
        ensures
            text@ == decode_error_text(*self),
    {
        match self {
            DecodeError::Malformed => "Malformed data".to_owned(),
            DecodeError::AuthenticationOrFormat => "Failed to decrypt a message".to_owned(),
            DecodeError::MissingPrefix => "Invalid ticket: missing 'ticket-' prefix".to_owned(),
            DecodeError::BadEncoding => "Invalid ticket: not valid base64".to_owned(),
        }
    }
}

/// An application message: the plaintext that an envelope carries.
#[derive(Clone, Debug, PartialEq, Eq)]
pub enum MessageBody {
    Joined { from: PeerId, name: String },
    Text { from: PeerId, text: String },
    Left { from: PeerId },
    DiceRoll { from: PeerId, result: u32, dice: Dice, rolls: Vec<u32> },
}

/// The mathematical content of a [`MessageBody`].
pub enum MessageBodyView {
    Joined { from: Seq<u8>, name: Seq<char> },
    Text { from: Seq<u8>, text: Seq<char> },
    Left { from: Seq<u8> },
    DiceRoll { from: Seq<u8>, result: u32, dice: DiceView, rolls: Seq<u32> },
}

impl View for MessageBody {
    type V = MessageBodyView;

    open spec fn view(&self) -> MessageBodyView {
        match *self {
            MessageBody::Joined { from, name } => MessageBodyView::Joined { from: from@, name: name@ },
            MessageBody::Text { from, text } => MessageBodyView::Text { from: from@, text: text@ },
            MessageBody::Left { from } => MessageBodyView::Left { from: from@ },
            MessageBody::DiceRoll { from, result, dice, rolls } => MessageBodyView::DiceRoll {
                from: from@,
                result,
                dice: dice@,
                rolls: rolls@,
            },
        }
    }
}

/// Number of bytes in a symmetric key.
pub const KEY_LEN: usize = 32;

/// Number of bytes in a nonce.
pub const NONCE_LEN: usize = 24;

/// An envelope: the encrypted and authenticated form of one application
/// message, with the nonce it was sealed under.
#[derive(Clone, Debug, PartialEq, Eq)]
pub struct Message {
    ciphertext: Vec<u8>,
    nonce: [u8; 24],
}

/// The mathematical content of a [`Message`].
pub struct MessageView {
    pub ciphertext: Seq<u8>,
    pub nonce: Seq<u8>,
}

impl View for Message {
    type V = MessageView;

    closed spec fn view(&self) -> MessageView {
        MessageView { ciphertext: self.ciphertext@, nonce: self.nonce@ }
    }
}

/// The bytes that a list of numbers stands for.
pub open spec fn u8s_of_nats(xs: Seq<nat>) -> Seq<u8> {
    xs.map_values(|x: nat| x as u8)
}

/// The wire form of an envelope: an object with the ciphertext and the
/// nonce, each as a list of numbers.
pub open spec fn envelope_wire(m: MessageView) -> Seq<u8> {
    ascii("{\"ciphertext\":["@) + num_list(nats_of_u8(m.ciphertext)) + ascii("],\"nonce\":["@)
        + num_list(nats_of_u8(m.nonce)) + ascii("]}"@)
}

/// Whether the bytes are the wire form of some envelope.
pub open spec fn is_envelope_wire(bytes: Seq<u8>) -> bool {
    exists|m: MessageView| m.nonce.len() == NONCE_LEN && envelope_wire(m) == bytes
}

/// Reads an envelope that stands at the start of some bytes: the envelope,
/// and where its wire form ends.
pub open spec fn parse_envelope_start(s: Seq<u8>) -> Option<(MessageView, int)> {
    let open = ascii("{\"ciphertext\":["@);
    let mid = ascii("],\"nonce\":["@);
    let close = ascii("]}"@);
    if !has_at(s, 0, open) {
        None
    } else {
        match parse_num_list(s, open.len() as int, 255) {
            None => None,
            Some((ciphertext, end1)) => if !has_at(s, end1, mid) {
                None
            } else {
                match parse_num_list(s, end1 + mid.len(), 255) {
                    None => None,
                    Some((nonce, end2)) => if has_at(s, end2, close) && nonce.len() == NONCE_LEN {
                        Some(
                            (
                                MessageView {
                                    ciphertext: u8s_of_nats(ciphertext),
                                    nonce: u8s_of_nats(nonce),
                                },
                                end2 + close.len(),
                            ),
                        )
                    } else {
                        None
                    },
                }
            },
        }
    }
}

/// Reads an envelope from its wire form: the envelope at the start of the
/// bytes, with nothing after it.
pub open spec fn parse_envelope(s: Seq<u8>) -> Option<MessageView> {
    match parse_envelope_start(s) {
        Some((m, end)) => if end == s.len() {
            Some(m)
        } else {
            None
        },
        None => None,
    }
}

proof fn lemma_envelope_literals()
    ensures
        "{\"ciphertext\":[".is_ascii(),
        "],\"nonce\":[".is_ascii(),
        "]}".is_ascii(),
        ascii("{\"ciphertext\":["@).len() == 15,
        ascii("],\"nonce\":["@).len() == 11,
        ascii("],\"nonce\":["@)[0] == 93,
        ascii("]}"@).len() == 2,
        ascii("]}"@)[0] == 93,
{
    reveal_strlit("{\"ciphertext\":[");
    reveal_strlit("],\"nonce\":[");
    reveal_strlit("]}");
}

/// Reading bytes that start with the wire form of an envelope gives the
/// envelope, and the end of that form.
pub proof fn lemma_parse_envelope_start(s: Seq<u8>, m: MessageView)
    requires
        m.nonce.len() == NONCE_LEN,
        has_at(s, 0, envelope_wire(m)),
    ensures
        parse_envelope_start(s) == Some((m, envelope_wire(m).len() as int)),
{
    lemma_envelope_literals();
    let open = ascii("{\"ciphertext\":["@);
    let mid = ascii("],\"nonce\":["@);
    let close = ascii("]}"@);
    let ct = num_list(nats_of_u8(m.ciphertext));
    let nonce = num_list(nats_of_u8(m.nonce));
    let x1 = open + ct;
    let x2 = x1 + mid;
    let x3 = x2 + nonce;
    lemma_has_at_concat(s, 0, x3, close);
    lemma_has_at_concat(s, 0, x2, nonce);
    lemma_has_at_concat(s, 0, x1, mid);
    lemma_has_at_concat(s, 0, open, ct);
    lemma_has_at_index(s, x1.len() as int, mid, 0);
    lemma_parse_num_list(s, open.len() as int, 255, nats_of_u8(m.ciphertext));
    lemma_has_at_index(s, x3.len() as int, close, 0);
    lemma_parse_num_list(s, x2.len() as int, 255, nats_of_u8(m.nonce));
    assert(u8s_of_nats(nats_of_u8(m.ciphertext)) =~= m.ciphertext);
    assert(u8s_of_nats(nats_of_u8(m.nonce)) =~= m.nonce);
}

/// Reading the wire form of an envelope gives the envelope back.
pub proof fn lemma_parse_envelope_wire(m: MessageView)
    requires
        m.nonce.len() == NONCE_LEN,
    ensures
        parse_envelope(envelope_wire(m)) == Some(m),
{
    let s = envelope_wire(m);
    assert(s.subrange(0, s.len() as int) =~= s);
    lemma_parse_envelope_start(s, m);
}

/// Truncated input is malformed: no proper prefix of the wire form of an
/// envelope is the wire form of an envelope.
pub proof fn lemma_truncated_wire_is_malformed(m: MessageView, keep: int)
    requires
        m.nonce.len() == NONCE_LEN,
        0 <= keep < envelope_wire(m).len(),
    ensures
        !is_envelope_wire(envelope_wire(m).take(keep)),
{
    let whole = envelope_wire(m);
    let part = whole.take(keep);
    assert(whole.subrange(0, whole.len() as int) =~= whole);
    lemma_parse_envelope_start(whole, m);
    assert forall|other: MessageView|
        other.nonce.len() == NONCE_LEN implies envelope_wire(other) != part by {
        if envelope_wire(other) == part {
            assert(whole.subrange(0, keep) =~= part);
            lemma_parse_envelope_start(whole, other);
        }
    }
}

/// No two envelopes have the same wire form.
pub proof fn lemma_envelope_wire_injective(a: MessageView, b: MessageView)
    requires
        a.nonce.len() == NONCE_LEN,
        b.nonce.len() == NONCE_LEN,
        envelope_wire(a) == envelope_wire(b),
    ensures
        a == b,
{
    lemma_parse_envelope_wire(a);
    lemma_parse_envelope_wire(b);
}

impl Message {
    /// The envelope with the given ciphertext and nonce.
    pub fn from_parts(ciphertext: Vec<u8>, nonce: [u8; 24]) -> (m: Message)
        ensures
            m@ == (MessageView { ciphertext: ciphertext@, nonce: nonce@ }),
    {
        Message { ciphertext, nonce }
    }

    /// The ciphertext with its authentication tag.
    pub fn ciphertext(&self) -> (bytes: &Vec<u8>)
        ensures
            bytes@ == self@.ciphertext,
    {
        &self.ciphertext
    }

    /// The nonce that the envelope was sealed under.
    pub fn nonce(&self) -> (bytes: &[u8; 24])
        ensures
            bytes@ == self@.nonce,
    {
        &self.nonce
    }

    /// The nonce of an envelope has 24 bytes.
    pub proof fn lemma_nonce_len(&self)
        ensures
            self@.nonce.len() == NONCE_LEN,
    {
    }

    /// The wire form of the envelope.
    pub fn to_vec(&self) -> (bytes: Vec<u8>)
        ensures
            bytes@ == envelope_wire(self@),
    {
        proof {
            lemma_envelope_literals();
        }
        let mut out: Vec<u8> = Vec::new();
        push_ascii(&mut out, "{\"ciphertext\":[");
        write_u8_list(&mut out, self.ciphertext.as_slice());
        push_ascii(&mut out, "],\"nonce\":[");
        write_u8_list(&mut out, self.nonce.as_slice());
        push_ascii(&mut out, "]}");
        assert(out@ =~= envelope_wire(self@));
        out
    }

    fn parse(bytes: &[u8]) -> (r: Option<Message>)
        ensures
            match r {
                Some(m) => parse_envelope(bytes@) == Some(m@),
                None => parse_envelope(bytes@) is None,
            },
    {
        proof {
            lemma_envelope_literals();
        }
        let total = bytes.len();
        if !expect_ascii(bytes, 0, "{\"ciphertext\":[") {
            return None;
        }
        let (ciphertext, end1) = match read_num_list(bytes, 15, 255) {
            None => {
                return None;
            },
            Some(found) => found,
        };
        if !expect_ascii(bytes, end1, "],\"nonce\":[") {
            return None;
        }
        let (nonce, end2) = match read_num_list(bytes, end1 + 11, 255) {
            None => {
                return None;
            },
            Some(found) => found,
        };
        if !expect_ascii(bytes, end2, "]}") || total - end2 != 2 {
            return None;
        }
        let nonce_bytes = narrow_to_bytes(&nonce);
        let ciphertext = narrow_to_bytes(&ciphertext);
        proof {
            assert(nonce_bytes@.len() == nats_of_u8(nonce_bytes@).len());
            assert(u8s_of_nats(nats_of_u8(nonce_bytes@)) =~= nonce_bytes@);
            assert(u8s_of_nats(nats_of_u8(ciphertext@)) =~= ciphertext@);
        }
        match array_from_slice::<24>(nonce_bytes.as_slice()) {
            None => None,
            Some(nonce) => Some(Message { ciphertext, nonce }),
        }
    }

    /// Reads an envelope from its wire form. Bytes that are not the wire
    /// form of an envelope are refused as malformed.
    pub fn from_bytes(bytes: &[u8]) -> (r: Result<Message, DecodeError>)
        ensures
            match r {
                Ok(m) => envelope_wire(m@) == bytes@,
                Err(e) => e == DecodeError::Malformed && !is_envelope_wire(bytes@),
            },
    {
        let candidate = Message::parse(bytes);
        let accepted = match &candidate {
            Some(m) => {
                let again = m.to_vec();
                bytes_equal(again.as_slice(), bytes)
            },
            None => false,
        };
        if accepted {
            match candidate {
                Some(m) => Ok(m),
                None => Err(DecodeError::Malformed),
            }
        } else {
            proof {
                assert forall|m: MessageView|
                    m.nonce.len() == NONCE_LEN implies envelope_wire(m) != bytes@ by {
                    if envelope_wire(m) == bytes@ {
                        lemma_parse_envelope_wire(m);
                    }
                }
            }
            Err(DecodeError::Malformed)
        }
    }
}

/// Whether a message view is that of some message: the sender has 32
/// bytes, and the numbers of a dice specification fit their fields.
pub open spec fn valid_body(b: MessageBodyView) -> bool {
    match b {
        MessageBodyView::Joined { from, .. } => from.len() == 32,
        MessageBodyView::Text { from, .. } => from.len() == 32,
        MessageBodyView::Left { from } => from.len() == 32,
        MessageBodyView::DiceRoll { from, dice, .. } => {
            &&& from.len() == 32
            &&& 0 <= dice.count <= u32::MAX
            &&& 0 <= dice.sides <= u32::MAX
            &&& i32::MIN <= dice.modifier <= i32::MAX
        },
    }
}

/// A message that carries a sender and one string: the opening piece up to
/// the sender, the sender in hexadecimal, the piece between, the string in
/// quotes, and the closing braces.
pub open spec fn tagged_text(open: Seq<char>, mid: Seq<char>, from: Seq<u8>, text: Seq<char>) -> Seq<
    u8,
> {
    ascii(open) + ascii(hex_text(from)) + ascii(mid) + json_string(text) + ascii("}}"@)
}

/// The serialized form of a dice specification.
pub open spec fn dice_json(dice: DiceView) -> Seq<u8> {
    ascii("{\"count\":"@) + dec_digits(dice.count as nat) + ascii(",\"sides\":"@) + dec_digits(
        dice.sides as nat,
    ) + ascii(",\"modifier\":"@) + int_text(dice.modifier) + ascii("}"@)
}

/// The serialized form of a message: an object named after the kind of
/// message, which holds the fields of the message in order.
pub open spec fn body_json(b: MessageBodyView) -> Seq<u8> {
    match b {
        MessageBodyView::Joined { from, name } => tagged_text(
            "{\"Joined\":{\"from\":\""@,
            "\",\"name\":"@,
            from,
            name,
        ),
        MessageBodyView::Text { from, text } => tagged_text(
            "{\"Text\":{\"from\":\""@,
            "\",\"text\":"@,
            from,
            text,
        ),
        MessageBodyView::Left { from } => ascii("{\"Left\":{\"from\":\""@) + ascii(hex_text(from))
            + ascii("\"}}"@),
        MessageBodyView::DiceRoll { from, result, dice, rolls } => ascii(
            "{\"DiceRoll\":{\"from\":\""@,
        ) + ascii(hex_text(from)) + ascii("\",\"result\":"@) + dec_digits(result as nat) + ascii(
            ",\"dice\":"@,
        ) + dice_json(dice) + ascii(",\"rolls\":["@) + num_list(nats_of_u32(rolls)) + ascii(
            "]}}"@,
        ),
    }
}

/// Whether the bytes are the serialized form of some message.
pub open spec fn is_body_json(bytes: Seq<u8>) -> bool {
    exists|b: MessageBodyView| valid_body(b) && body_json(b) == bytes
}

/// The 32-bit numbers that a list of numbers stands for.
pub open spec fn u32s_of_nats(xs: Seq<nat>) -> Seq<u32> {
    xs.map_values(|x: nat| x as u32)
}

/// Reads a message that carries a sender and one string.
pub open spec fn parse_tagged_text(s: Seq<u8>, open: Seq<char>, mid: Seq<char>) -> Option<
    (Seq<u8>, Seq<char>),
> {
    if !has_at(s, 0, ascii(open)) {
        None
    } else {
        match parse_hex(s, ascii(open).len() as int, 32) {
            None => None,
            Some((from, end1)) => if !has_at(s, end1, ascii(mid)) {
                None
            } else {
                match parse_json_string(s, end1 + ascii(mid).len()) {
                    None => None,
                    Some((text, end2)) => if has_at(s, end2, ascii("}}"@)) && end2 + 2 == s.len() {
                        Some((from, text))
                    } else {
                        None
                    },
                }
            },
        }
    }
}

/// Reads a dice specification at `pos`.
pub open spec fn parse_dice(s: Seq<u8>, pos: int) -> Option<(DiceView, int)> {
    if !has_at(s, pos, ascii("{\"count\":"@)) {
        None
    } else {
        match parse_nat(s, pos + 9, u32::MAX as nat) {
            None => None,
            Some((count, end1)) => if !has_at(s, end1, ascii(",\"sides\":"@)) {
                None
            } else {
                match parse_nat(s, end1 + 9, u32::MAX as nat) {
                    None => None,
                    Some((sides, end2)) => if !has_at(s, end2, ascii(",\"modifier\":"@)) {
                        None
                    } else {
                        match parse_int(s, end2 + 12, 0x8000_0000, 0x7FFF_FFFF) {
                            None => None,
                            Some((modifier, end3)) => if has_at(s, end3, ascii("}"@)) {
                                Some(
                                    (
                                        DiceView {
                                            count: count as int,
                                            sides: sides as int,
                                            modifier,
                                        },
                                        end3 + 1,
                                    ),
                                )
                            } else {
                                None
                            },
                        }
                    },
                }
            },
        }
    }
}

/// Reads a departure.
pub open spec fn parse_left(s: Seq<u8>) -> Option<MessageBodyView> {
    match parse_hex(s, 17, 32) {
        None => None,
        Some((from, end1)) => if has_at(s, end1, ascii("\"}}"@)) && end1 + 3 == s.len() {
            Some(MessageBodyView::Left { from })
        } else {
            None
        },
    }
}

/// Reads a dice roll.
pub open spec fn parse_dice_roll(s: Seq<u8>) -> Option<MessageBodyView> {
    match parse_hex(s, 21, 32) {
        None => None,
        Some((from, end1)) => if !has_at(s, end1, ascii("\",\"result\":"@)) {
            None
        } else {
            match parse_nat(s, end1 + 11, u32::MAX as nat) {
                None => None,
                Some((result, end2)) => if !has_at(s, end2, ascii(",\"dice\":"@)) {
                    None
                } else {
                    match parse_dice(s, end2 + 8) {
                        None => None,
                        Some((dice, end3)) => if !has_at(s, end3, ascii(",\"rolls\":["@)) {
                            None
                        } else {
                            match parse_num_list(s, end3 + 10, u32::MAX as nat) {
                                None => None,
                                Some((rolls, end4)) => if has_at(s, end4, ascii("]}}"@)) && end4 + 3
                                    == s.len() {
                                    Some(
                                        MessageBodyView::DiceRoll {
                                            from,
                                            result: result as u32,
                                            dice,
                                            rolls: u32s_of_nats(rolls),
                                        },
                                    )
                                } else {
                                    None
                                },
                            }
                        },
                    }
                },
            }
        },
    }
}

/// Reads a message from its serialized form.
pub open spec fn parse_body(s: Seq<u8>) -> Option<MessageBodyView> {
    if has_at(s, 0, ascii("{\"Joined\":{\"from\":\""@)) {
        match parse_tagged_text(s, "{\"Joined\":{\"from\":\""@, "\",\"name\":"@) {
            Some((from, name)) => Some(MessageBodyView::Joined { from, name }),
            None => None,
        }
    } else if has_at(s, 0, ascii("{\"Text\":{\"from\":\""@)) {
        match parse_tagged_text(s, "{\"Text\":{\"from\":\""@, "\",\"text\":"@) {
            Some((from, text)) => Some(MessageBodyView::Text { from, text }),
            None => None,
        }
    } else if has_at(s, 0, ascii("{\"Left\":{\"from\":\""@)) {
        parse_left(s)
    } else if has_at(s, 0, ascii("{\"DiceRoll\":{\"from\":\""@)) {
        parse_dice_roll(s)
    } else {
        None
    }
}

proof fn lemma_body_literals()
    ensures
        "{\"Joined\":{\"from\":\"".is_ascii(),
        "\",\"name\":".is_ascii(),
        "{\"Text\":{\"from\":\"".is_ascii(),
        "\",\"text\":".is_ascii(),
        "{\"Left\":{\"from\":\"".is_ascii(),
        "\"}}".is_ascii(),
        "}}".is_ascii(),
        "{\"DiceRoll\":{\"from\":\"".is_ascii(),
        "\",\"result\":".is_ascii(),
        ",\"dice\":".is_ascii(),
        ",\"rolls\":[".is_ascii(),
        "]}}".is_ascii(),
        "{\"count\":".is_ascii(),
        ",\"sides\":".is_ascii(),
        ",\"modifier\":".is_ascii(),
        "}".is_ascii(),
        ascii("{\"Joined\":{\"from\":\""@).len() == 19,
        ascii("{\"Joined\":{\"from\":\""@)[2] == 74,
        ascii("{\"Text\":{\"from\":\""@).len() == 17,
        ascii("{\"Text\":{\"from\":\""@)[2] == 84,
        ascii("{\"Left\":{\"from\":\""@).len() == 17,
        ascii("{\"Left\":{\"from\":\""@)[2] == 76,
        ascii("{\"DiceRoll\":{\"from\":\""@).len() == 21,
        ascii("{\"DiceRoll\":{\"from\":\""@)[2] == 68,
        ascii("\",\"name\":"@).len() == 9,
        ascii("\",\"text\":"@).len() == 9,
        ascii("\"}}"@).len() == 3,
        ascii("}}"@).len() == 2,
        ascii("\",\"result\":"@).len() == 11,
        ascii(",\"dice\":"@).len() == 8,
        ascii(",\"dice\":"@)[0] == 44,
        ascii(",\"rolls\":["@).len() == 10,
        ascii("]}}"@).len() == 3,
        ascii("]}}"@)[0] == 93,
        ascii("{\"count\":"@).len() == 9,
        ascii(",\"sides\":"@).len() == 9,
        ascii(",\"sides\":"@)[0] == 44,
        ascii(",\"modifier\":"@).len() == 12,
        ascii(",\"modifier\":"@)[0] == 44,
        ascii("}"@).len() == 1,
        ascii("}"@)[0] == 125,
{
    reveal_strlit("{\"Joined\":{\"from\":\"");
    reveal_strlit("\",\"name\":");
    reveal_strlit("{\"Text\":{\"from\":\"");
    reveal_strlit("\",\"text\":");
    reveal_strlit("{\"Left\":{\"from\":\"");
    reveal_strlit("\"}}");
    reveal_strlit("}}");
    reveal_strlit("{\"DiceRoll\":{\"from\":\"");
    reveal_strlit("\",\"result\":");
    reveal_strlit(",\"dice\":");
    reveal_strlit(",\"rolls\":[");
    reveal_strlit("]}}");
    reveal_strlit("{\"count\":");
    reveal_strlit(",\"sides\":");
    reveal_strlit(",\"modifier\":");
    reveal_strlit("}");
}

proof fn lemma_whole(s: Seq<u8>)
    ensures
        has_at(s, 0, s),
{
    assert(s.subrange(0, s.len() as int) =~= s);
}

proof fn lemma_parse_tagged_text(open: Seq<char>, mid: Seq<char>, from: Seq<u8>, text: Seq<char>)
    requires
        from.len() == 32,
    ensures
        parse_tagged_text(tagged_text(open, mid, from, text), open, mid) == Some((from, text)),
        has_at(tagged_text(open, mid, from, text), 0, ascii(open)),
{
    lemma_body_literals();
    let s = tagged_text(open, mid, from, text);
    let x1 = ascii(open) + ascii(hex_text(from));
    let x2 = x1 + ascii(mid);
    let x3 = x2 + json_string(text);
    lemma_whole(s);
    lemma_has_at_concat(s, 0, x3, ascii("}}"@));
    lemma_has_at_concat(s, 0, x2, json_string(text));
    lemma_has_at_concat(s, 0, x1, ascii(mid));
    lemma_has_at_concat(s, 0, ascii(open), ascii(hex_text(from)));
    lemma_parse_hex_text(s, ascii(open).len() as int, from);
    lemma_parse_json_string(s, x2.len() as int, text);
}

proof fn lemma_parse_dice_json(s: Seq<u8>, pos: int, dice: DiceView)
    requires
        0 <= dice.count <= u32::MAX,
        0 <= dice.sides <= u32::MAX,
        i32::MIN <= dice.modifier <= i32::MAX,
        has_at(s, pos, dice_json(dice)),
    ensures
        parse_dice(s, pos) == Some((dice, pos + dice_json(dice).len())),
{
    lemma_body_literals();
    let a = ascii("{\"count\":"@);
    let count = dec_digits(dice.count as nat);
    let b = ascii(",\"sides\":"@);
    let sides = dec_digits(dice.sides as nat);
    let c = ascii(",\"modifier\":"@);
    let modifier = int_text(dice.modifier);
    let close = ascii("}"@);
    let x1 = a + count;
    let x2 = x1 + b;
    let x3 = x2 + sides;
    let x4 = x3 + c;
    let x5 = x4 + modifier;
    lemma_has_at_concat(s, pos, x5, close);
    lemma_has_at_concat(s, pos, x4, modifier);
    lemma_has_at_concat(s, pos, x3, c);
    lemma_has_at_concat(s, pos, x2, sides);
    lemma_has_at_concat(s, pos, x1, b);
    lemma_has_at_concat(s, pos, a, count);
    lemma_has_at_index(s, pos + x1.len(), b, 0);
    lemma_parse_nat_dec(s, pos + 9, dice.count as nat, u32::MAX as nat);
    lemma_has_at_index(s, pos + x3.len(), c, 0);
    lemma_parse_nat_dec(s, pos + x2.len(), dice.sides as nat, u32::MAX as nat);
    lemma_has_at_index(s, pos + x5.len(), close, 0);
    lemma_parse_int_text(s, pos + x4.len(), dice.modifier, 0x8000_0000, 0x7FFF_FFFF);
}

proof fn lemma_parse_left(from: Seq<u8>)
    requires
        from.len() == 32,
    ensures
        parse_left(body_json(MessageBodyView::Left { from })) == Some(MessageBodyView::Left { from }),
        has_at(body_json(MessageBodyView::Left { from }), 0, ascii("{\"Left\":{\"from\":\""@)),
{
    lemma_body_literals();
    let s = body_json(MessageBodyView::Left { from });
    let open = ascii("{\"Left\":{\"from\":\""@);
    let hex = ascii(hex_text(from));
    let close = ascii("\"}}"@);
    lemma_whole(s);
    lemma_has_at_concat(s, 0, open + hex, close);
    lemma_has_at_concat(s, 0, open, hex);
    lemma_parse_hex_text(s, 17, from);
}

/// Where the pieces of a serialized dice roll stand.
spec fn dice_roll_layout(
    s: Seq<u8>,
    from: Seq<u8>,
    result: u32,
    dice: DiceView,
    rolls: Seq<u32>,
) -> bool {
    let open = ascii("{\"DiceRoll\":{\"from\":\""@);
    let hex = ascii(hex_text(from));
    let a = ascii("\",\"result\":"@);
    let res = dec_digits(result as nat);
    let b = ascii(",\"dice\":"@);
    let dj = dice_json(dice);
    let c = ascii(",\"rolls\":["@);
    let list = num_list(nats_of_u32(rolls));
    let close = ascii("]}}"@);
    let end1 = 85int;
    let start1 = end1 + 11;
    let end2 = start1 + res.len();
    let start2 = end2 + 8;
    let end3 = start2 + dj.len();
    let start3 = end3 + 10;
    let end4 = start3 + list.len();
    &&& has_at(s, 0, open)
    &&& has_at(s, 21, hex)
    &&& has_at(s, end1, a)
    &&& has_at(s, start1, res)
    &&& has_at(s, end2, b)
    &&& has_at(s, start2, dj)
    &&& has_at(s, end3, c)
    &&& has_at(s, start3, list)
    &&& has_at(s, end4, close)
    &&& end4 + 3 == s.len()
}

proof fn lemma_dice_roll_layout(from: Seq<u8>, result: u32, dice: DiceView, rolls: Seq<u32>)
    requires
        from.len() == 32,
    ensures
        dice_roll_layout(
            body_json(MessageBodyView::DiceRoll { from, result, dice, rolls }),
            from,
            result,
            dice,
            rolls,
        ),
{
    lemma_body_literals();
    let s = body_json(MessageBodyView::DiceRoll { from, result, dice, rolls });
    let open = ascii("{\"DiceRoll\":{\"from\":\""@);
    let hex = ascii(hex_text(from));
    let a = ascii("\",\"result\":"@);
    let res = dec_digits(result as nat);
    let b = ascii(",\"dice\":"@);
    let dj = dice_json(dice);
    let c = ascii(",\"rolls\":["@);
    let list = num_list(nats_of_u32(rolls));
    let close = ascii("]}}"@);
    let x1 = open + hex;
    let x2 = x1 + a;
    let x3 = x2 + res;
    let x4 = x3 + b;
    let x5 = x4 + dj;
    let x6 = x5 + c;
    let x7 = x6 + list;
    lemma_whole(s);
    lemma_has_at_concat(s, 0, x7, close);
    lemma_has_at_concat(s, 0, x6, list);
    lemma_has_at_concat(s, 0, x5, c);
    lemma_has_at_concat(s, 0, x4, dj);
    lemma_has_at_concat(s, 0, x3, b);
    lemma_has_at_concat(s, 0, x2, res);
    lemma_has_at_concat(s, 0, x1, a);
    lemma_has_at_concat(s, 0, open, hex);
}

proof fn lemma_parse_dice_roll(from: Seq<u8>, result: u32, dice: DiceView, rolls: Seq<u32>)
    requires
        valid_body(MessageBodyView::DiceRoll { from, result, dice, rolls }),
    ensures
        parse_dice_roll(body_json(MessageBodyView::DiceRoll { from, result, dice, rolls })) == Some(
            MessageBodyView::DiceRoll { from, result, dice, rolls },
        ),
        has_at(
            body_json(MessageBodyView::DiceRoll { from, result, dice, rolls }),
            0,
            ascii("{\"DiceRoll\":{\"from\":\""@),
        ),
{
    lemma_body_literals();
    lemma_dice_roll_layout(from, result, dice, rolls);
    let s = body_json(MessageBodyView::DiceRoll { from, result, dice, rolls });
    let res = dec_digits(result as nat);
    let dj = dice_json(dice);
    let list = num_list(nats_of_u32(rolls));
    let end1 = 85int;
    let start1 = end1 + 11;
    let end2 = start1 + res.len();
    let start2 = end2 + 8;
    let end3 = start2 + dj.len();
    let start3 = end3 + 10;
    let end4 = start3 + list.len();
    lemma_parse_hex_text(s, 21, from);
    lemma_has_at_index(s, end2, ascii(",\"dice\":"@), 0);
    lemma_parse_nat_dec(s, start1, result as nat, u32::MAX as nat);
    lemma_parse_dice_json(s, start2, dice);
    lemma_has_at_index(s, end4, ascii("]}}"@), 0);
    lemma_parse_num_list(s, start3, u32::MAX as nat, nats_of_u32(rolls));
    assert(u32s_of_nats(nats_of_u32(rolls)) =~= rolls);
}

proof fn lemma_openers_differ(s: Seq<u8>)
    ensures
        !(has_at(s, 0, ascii("{\"Joined\":{\"from\":\""@)) && has_at(
            s,
            0,
            ascii("{\"Text\":{\"from\":\""@),
        )),
        !(has_at(s, 0, ascii("{\"Joined\":{\"from\":\""@)) && has_at(
            s,
            0,
            ascii("{\"Left\":{\"from\":\""@),
        )),
        !(has_at(s, 0, ascii("{\"Joined\":{\"from\":\""@)) && has_at(
            s,
            0,
            ascii("{\"DiceRoll\":{\"from\":\""@),
        )),
        !(has_at(s, 0, ascii("{\"Text\":{\"from\":\""@)) && has_at(
            s,
            0,
            ascii("{\"Left\":{\"from\":\""@),
        )),
        !(has_at(s, 0, ascii("{\"Text\":{\"from\":\""@)) && has_at(
            s,
            0,
            ascii("{\"DiceRoll\":{\"from\":\""@),
        )),
        !(has_at(s, 0, ascii("{\"Left\":{\"from\":\""@)) && has_at(
            s,
            0,
            ascii("{\"DiceRoll\":{\"from\":\""@),
        )),
{
    lemma_body_literals();
    let joined = ascii("{\"Joined\":{\"from\":\""@);
    let text_open = ascii("{\"Text\":{\"from\":\""@);
    let left = ascii("{\"Left\":{\"from\":\""@);
    let roll = ascii("{\"DiceRoll\":{\"from\":\""@);
    if has_at(s, 0, joined) {
        lemma_has_at_index(s, 0, joined, 2);
    }
    if has_at(s, 0, text_open) {
        lemma_has_at_index(s, 0, text_open, 2);
    }
    if has_at(s, 0, left) {
        lemma_has_at_index(s, 0, left, 2);
    }
    if has_at(s, 0, roll) {
        lemma_has_at_index(s, 0, roll, 2);
    }
}

/// Reading the serialized form of a message gives the message back.
pub proof fn lemma_parse_body_json(b: MessageBodyView)
    requires
        valid_body(b),
    ensures
        parse_body(body_json(b)) == Some(b),
{
    lemma_openers_differ(body_json(b));
    match b {
        MessageBodyView::Joined { from, name } => {
            lemma_parse_tagged_text("{\"Joined\":{\"from\":\""@, "\",\"name\":"@, from, name);
        },
        MessageBodyView::Text { from, text } => {
            lemma_parse_tagged_text("{\"Text\":{\"from\":\""@, "\",\"text\":"@, from, text);
        },
        MessageBodyView::Left { from } => {
            lemma_parse_left(from);
        },
        MessageBodyView::DiceRoll { from, result, dice, rolls } => {
            lemma_parse_dice_roll(from, result, dice, rolls);
        },
    }
}

/// No two messages have the same serialized form.
pub proof fn lemma_body_json_injective(a: MessageBodyView, b: MessageBodyView)
    requires
        valid_body(a),
        valid_body(b),
        body_json(a) == body_json(b),
    ensures
        a == b,
{
    lemma_parse_body_json(a);
    lemma_parse_body_json(b);
}

/// Why a message could not be sealed.
#[derive(Clone, Copy, Debug, PartialEq, Eq)]
pub enum SealError {
    /// The serialized message is longer than the cipher can encrypt under
    /// one nonce.
    MessageTooLong,
}

/// The text that describes an error.
pub open spec fn seal_error_text(e: SealError) -> Seq<char> {
    match e {
        SealError::MessageTooLong => "Unexpected failure while encrypting a message."@,
    }
}

impl SealError {
    /// The text that describes the error.
    pub fn message(&self) -> (text: String)
        ensures
            text@ == seal_error_text(*self),
    {
        match self {
            SealError::MessageTooLong => "Unexpected failure while encrypting a message.".to_owned(),
        }
    }
}

/// What XChaCha20-Poly1305 encryption of `plaintext` under `key` and
/// `nonce` returns: the ciphertext followed by its authentication tag.
pub uninterp spec fn sealed(key: Seq<u8>, nonce: Seq<u8>, plaintext: Seq<u8>) -> Seq<u8>;

/// What XChaCha20-Poly1305 decryption of `ciphertext` under `key` and
/// `nonce` returns: the plaintext, or nothing where the cipher refuses the
/// ciphertext, as it does where the authentication tag does not verify.
pub uninterp spec fn opened(key: Seq<u8>, nonce: Seq<u8>, ciphertext: Seq<u8>) -> Option<Seq<u8>>;

/// Largest plaintext, in bytes, that the cipher encrypts under one nonce:
/// 2^32 - 2 blocks of 64 bytes. The key stream has 2^32 - 1 blocks, and
/// its first block makes the authentication key.
pub const MAX_PLAINTEXT_LEN: u64 = 274_877_906_816;

/// Number of bytes in an authentication tag.
pub const TAG_LEN: usize = 16;

/// Whether the cipher encrypts a plaintext of this length.
pub open spec fn sealable_len(len: nat) -> bool {
    len <= MAX_PLAINTEXT_LEN
}

/// Whether a ciphertext of this length, tag included, can be handed to
/// the cipher.
pub open spec fn openable_len(len: nat) -> bool {
    len <= MAX_PLAINTEXT_LEN + TAG_LEN
}

/// Encrypts with `XChaCha20Poly1305::encrypt`, without associated data. On
/// a plaintext within the key stream it succeeds; the ciphertext is the
/// plaintext's length and a tag long, and it decrypts, under the same key
/// and nonce, to the plaintext. A longer plaintext is left out: the
/// cipher refuses it or panics on it.
#[verifier::external_body]
fn aead_seal(key: &[u8; 32], nonce: &[u8; 24], plaintext: &[u8]) -> (r: Option<Vec<u8>>)
    requires
        sealable_len(plaintext@.len()),
    ensures
        r is Some,
        r matches Some(ciphertext) ==> ciphertext@ == sealed(key@, nonce@, plaintext@),
        r matches Some(ciphertext) ==> ciphertext@.len() == plaintext@.len() + TAG_LEN,
        r matches Some(ciphertext) ==> opened(key@, nonce@, ciphertext@) == Some(plaintext@),
{
    let cipher = XChaCha20Poly1305::new(key.into());
    cipher.encrypt(nonce.into(), plaintext).ok()
}

/// Decrypts with `XChaCha20Poly1305::decrypt`, without associated data:
/// the plaintext, or nothing where the cipher reports an error, as it
/// does on a ciphertext shorter than a tag. A ciphertext beyond the key
/// stream is left out: the cipher refuses it or panics on it.
#[verifier::external_body]
fn aead_open(key: &[u8; 32], nonce: &[u8; 24], ciphertext: &[u8]) -> (r: Option<Vec<u8>>)
    requires
        openable_len(ciphertext@.len()),
    ensures
        match r {
            Some(plaintext) => opened(key@, nonce@, ciphertext@) == Some(plaintext@),
            None => opened(key@, nonce@, ciphertext@) is None,
        },
        ciphertext@.len() < TAG_LEN ==> r is None,
{
    let cipher = XChaCha20Poly1305::new(key.into());
    cipher.decrypt(nonce.into(), ciphertext).ok()
}

/// A nonce from the operating system's random generator
/// (`XChaCha20Poly1305::generate_nonce` with `OsRng`). Nothing is known of
/// its value.
#[verifier::external_body]
fn fresh_nonce() -> (nonce: [u8; 24]) {
    XChaCha20Poly1305::generate_nonce(&mut OsRng).into()
}

/// Whether the envelope opens under the key to the serialized form of the
/// message: its ciphertext is within what the cipher takes, and the cipher
/// opens it to that form.
pub open spec fn decrypts_to(m: MessageView, key: Seq<u8>, body: MessageBodyView) -> bool {
    openable_len(m.ciphertext.len()) && opened(key, m.nonce, m.ciphertext) == Some(body_json(body))
}

/// What decryption of an envelope gives: the message that the envelope
/// opens to, and an authentication-or-format error where it opens to no
/// message.
pub open spec fn decrypt_outcome(
    m: MessageView,
    key: Seq<u8>,
    r: Result<MessageBodyView, DecodeError>,
) -> bool {
    match r {
        Ok(body) => valid_body(body) && decrypts_to(m, key, body),
        Err(e) => e == DecodeError::AuthenticationOrFormat && forall|b: MessageBodyView|
            valid_body(b) ==> !#[trigger] decrypts_to(m, key, b),
    }
}

/// The view of the result of a decryption.
pub open spec fn body_result_view(r: Result<MessageBody, DecodeError>) -> Result<
    MessageBodyView,
    DecodeError,
> {
    match r {
        Ok(body) => Ok(body@),
        Err(e) => Err(e),
    }
}

/// Round trip: decrypting, under the same key, an envelope that a message
/// was sealed into gives that message back.
pub proof fn lemma_decrypt_inverts_encrypt(
    m: MessageView,
    key: Seq<u8>,
    body: MessageBodyView,
    outcome: Result<MessageBodyView, DecodeError>,
)
    requires
        valid_body(body),
        decrypts_to(m, key, body),
        decrypt_outcome(m, key, outcome),
    ensures
        outcome == Ok::<MessageBodyView, DecodeError>(body),
{
    match outcome {
        Ok(other) => {
            lemma_body_json_injective(body, other);
        },
        Err(_) => {
            assert(!decrypts_to(m, key, body));
        },
    }
}

/// An envelope that the cipher refuses under a key, and one whose
/// ciphertext is longer than the cipher takes, decrypts to the
/// authentication-or-format error and to no message.
pub proof fn lemma_refused_envelope_is_error(
    m: MessageView,
    key: Seq<u8>,
    outcome: Result<MessageBodyView, DecodeError>,
)
    requires
        !openable_len(m.ciphertext.len()) || opened(key, m.nonce, m.ciphertext) is None,
        decrypt_outcome(m, key, outcome),
    ensures
        outcome == Err::<MessageBodyView, DecodeError>(DecodeError::AuthenticationOrFormat),
{
}

impl MessageBody {
    /// The view of a message is valid.
    pub proof fn lemma_view_valid(&self)
        ensures
            valid_body(self@),
    {
        match *self {
            MessageBody::Joined { from, .. } => {
                from.lemma_len();
            },
            MessageBody::Text { from, .. } => {
                from.lemma_len();
            },
            MessageBody::Left { from } => {
                from.lemma_len();
            },
            MessageBody::DiceRoll { from, dice, .. } => {
                from.lemma_len();
                dice.lemma_view_bounds();
            },
        }
    }

    /// The peer that the message claims to come from.
    pub fn sender(&self) -> (peer: PeerId)
        ensures
            peer@ == match self@ {
                MessageBodyView::Joined { from, .. } => from,
                MessageBodyView::Text { from, .. } => from,
                MessageBodyView::Left { from } => from,
                MessageBodyView::DiceRoll { from, .. } => from,
            },
    {
        match self {
            MessageBody::Joined { from, .. } => *from,
            MessageBody::Text { from, .. } => *from,
            MessageBody::Left { from } => *from,
            MessageBody::DiceRoll { from, .. } => *from,
        }
    }

    fn write_tagged_text(out: &mut Vec<u8>, open: &str, mid: &str, from: &PeerId, text: &str)
        requires
            open.is_ascii(),
            mid.is_ascii(),
        ensures
            final(out)@ == old(out)@ + tagged_text(open@, mid@, from@, text@),
    {
        proof {
            lemma_body_literals();
        }
        push_ascii(out, open);
        write_hex(out, from.as_bytes().as_slice());
        push_ascii(out, mid);
        write_json_string(out, text);
        push_ascii(out, "}}");
        assert(out@ =~= old(out)@ + tagged_text(open@, mid@, from@, text@));
    }

    fn write_dice(out: &mut Vec<u8>, dice: &Dice)
        ensures
            final(out)@ == old(out)@ + dice_json(dice@),
    {
        proof {
            lemma_body_literals();
        }
        push_ascii(out, "{\"count\":");
        write_nat(out, dice.count() as u64);
        push_ascii(out, ",\"sides\":");
        write_nat(out, dice.sides() as u64);
        push_ascii(out, ",\"modifier\":");
        write_int(out, dice.modifier() as i64);
        push_ascii(out, "}");
        assert(out@ =~= old(out)@ + dice_json(dice@));
    }

    /// The serialized form of the message.
    pub fn to_vec(&self) -> (bytes: Vec<u8>)
        ensures
            bytes@ == body_json(self@),
    {
        proof {
            lemma_body_literals();
        }
        let mut out: Vec<u8> = Vec::new();
        match self {
            MessageBody::Joined { from, name } => {
                MessageBody::write_tagged_text(
                    &mut out,
                    "{\"Joined\":{\"from\":\"",
                    "\",\"name\":",
                    from,
                    name.as_str(),
                );
            },
            MessageBody::Text { from, text } => {
                MessageBody::write_tagged_text(
                    &mut out,
                    "{\"Text\":{\"from\":\"",
                    "\",\"text\":",
                    from,
                    text.as_str(),
                );
            },
            MessageBody::Left { from } => {
                push_ascii(&mut out, "{\"Left\":{\"from\":\"");
                write_hex(&mut out, from.as_bytes().as_slice());
                push_ascii(&mut out, "\"}}");
            },
            MessageBody::DiceRoll { from, result, dice, rolls } => {
                push_ascii(&mut out, "{\"DiceRoll\":{\"from\":\"");
                write_hex(&mut out, from.as_bytes().as_slice());
                push_ascii(&mut out, "\",\"result\":");
                write_nat(&mut out, *result as u64);
                push_ascii(&mut out, ",\"dice\":");
                MessageBody::write_dice(&mut out, dice);
                push_ascii(&mut out, ",\"rolls\":[");
                write_u32_list(&mut out, rolls.as_slice());
                push_ascii(&mut out, "]}}");
            },
        }
        assert(out@ =~= body_json(self@));
        out
    }

    fn read_peer(bytes: &[u8], pos: usize) -> (r: Option<(PeerId, usize)>)
        ensures
            match r {
                Some((peer, end)) => parse_hex(bytes@, pos as int, 32) == Some((peer@, end as int))
                    && end == pos + 64 && end <= bytes@.len(),
                None => parse_hex(bytes@, pos as int, 32) is None,
            },
    {
        match read_hex(bytes, pos, 32) {
            None => None,
            Some((raw, end)) => match array_from_slice::<32>(raw.as_slice()) {
                Some(id) => Some((PeerId::from_bytes(id), end)),
                None => None,
            },
        }
    }

    fn read_tagged_text(bytes: &[u8], open: &str, mid: &str) -> (r: Option<(PeerId, String)>)
        requires
            open.is_ascii(),
            mid.is_ascii(),
        ensures
            match r {
                Some((from, text)) => parse_tagged_text(bytes@, open@, mid@) == Some((from@, text@)),
                None => parse_tagged_text(bytes@, open@, mid@) is None,
            },
    {
        proof {
            lemma_body_literals();
        }
        let total = bytes.len();
        let end0 = match skip_ascii(bytes, 0, open) {
            None => {
                return None;
            },
            Some(end) => end,
        };
        let (from, end1) = match MessageBody::read_peer(bytes, end0) {
            None => {
                return None;
            },
            Some(found) => found,
        };
        let q = match skip_ascii(bytes, end1, mid) {
            None => {
                return None;
            },
            Some(end) => end,
        };
        let (text, end2) = match read_json_string(bytes, q) {
            None => {
                return None;
            },
            Some(found) => found,
        };
        if !expect_ascii(bytes, end2, "}}") || total - end2 != 2 {
            return None;
        }
        Some((from, text))
    }

    fn read_dice(bytes: &[u8], pos: usize) -> (r: Option<(Dice, usize)>)
        ensures
            match r {
                Some((dice, end)) => parse_dice(bytes@, pos as int) == Some((dice@, end as int)) && end
                    <= bytes@.len(),
                None => parse_dice(bytes@, pos as int) is None,
            },
    {
        proof {
            lemma_body_literals();
        }
        let end0 = match skip_ascii(bytes, pos, "{\"count\":") {
            None => {
                return None;
            },
            Some(end) => end,
        };
        let (count, end1) = match read_nat(bytes, end0, 0xFFFF_FFFF) {
            None => {
                return None;
            },
            Some(found) => found,
        };
        let start1 = match skip_ascii(bytes, end1, ",\"sides\":") {
            None => {
                return None;
            },
            Some(end) => end,
        };
        let (sides, end2) = match read_nat(bytes, start1, 0xFFFF_FFFF) {
            None => {
                return None;
            },
            Some(found) => found,
        };
        let start2 = match skip_ascii(bytes, end2, ",\"modifier\":") {
            None => {
                return None;
            },
            Some(end) => end,
        };
        let (modifier, end3) = match read_int(bytes, start2, 0x8000_0000, 0x7FFF_FFFF) {
            None => {
                return None;
            },
            Some(found) => found,
        };
        let end = match skip_ascii(bytes, end3, "}") {
            None => {
                return None;
            },
            Some(end) => end,
        };
        Some((Dice::from_parts(count as u32, sides as u32, modifier as i32), end))
    }

    fn read_left(bytes: &[u8]) -> (r: Option<MessageBody>)
        ensures
            match r {
                Some(body) => parse_left(bytes@) == Some(body@),
                None => parse_left(bytes@) is None,
            },
    {
        proof {
            lemma_body_literals();
        }
        let total = bytes.len();
        let (from, end1) = match MessageBody::read_peer(bytes, 17) {
            None => {
                return None;
            },
            Some(found) => found,
        };
        if !expect_ascii(bytes, end1, "\"}}") || total - end1 != 3 {
            return None;
        }
        Some(MessageBody::Left { from })
    }

    fn read_dice_roll(bytes: &[u8]) -> (r: Option<MessageBody>)
        ensures
            match r {
                Some(body) => parse_dice_roll(bytes@) == Some(body@),
                None => parse_dice_roll(bytes@) is None,
            },
    {
        proof {
            lemma_body_literals();
        }
        let total = bytes.len();
        let (from, end1) = match MessageBody::read_peer(bytes, 21) {
            None => {
                return None;
            },
            Some(found) => found,
        };
        let start1 = match skip_ascii(bytes, end1, "\",\"result\":") {
            None => {
                return None;
            },
            Some(end) => end,
        };
        let (result, end2) = match read_nat(bytes, start1, 0xFFFF_FFFF) {
            None => {
                return None;
            },
            Some(found) => found,
        };
        let start2 = match skip_ascii(bytes, end2, ",\"dice\":") {
            None => {
                return None;
            },
            Some(end) => end,
        };
        let (dice, end3) = match MessageBody::read_dice(bytes, start2) {
            None => {
                return None;
            },
            Some(found) => found,
        };
        let start3 = match skip_ascii(bytes, end3, ",\"rolls\":[") {
            None => {
                return None;
            },
            Some(end) => end,
        };
        let (rolls, end4) = match read_num_list(bytes, start3, 0xFFFF_FFFF) {
            None => {
                return None;
            },
            Some(found) => found,
        };
        if !expect_ascii(bytes, end4, "]}}") || total - end4 != 3 {
            return None;
        }
        proof {
            assert(u32s_of_nats(nats_of_u32(rolls@)) =~= rolls@);
        }
        Some(MessageBody::DiceRoll { from, result: result as u32, dice, rolls })
    }

    fn parse(bytes: &[u8]) -> (r: Option<MessageBody>)
        ensures
            match r {
                Some(body) => parse_body(bytes@) == Some(body@),
                None => parse_body(bytes@) is None,
            },
    {
        proof {
            lemma_body_literals();
        }
        if expect_ascii(bytes, 0, "{\"Joined\":{\"from\":\"") {
            match MessageBody::read_tagged_text(bytes, "{\"Joined\":{\"from\":\"", "\",\"name\":") {
                Some((from, name)) => Some(MessageBody::Joined { from, name }),
                None => None,
            }
        } else if expect_ascii(bytes, 0, "{\"Text\":{\"from\":\"") {
            match MessageBody::read_tagged_text(bytes, "{\"Text\":{\"from\":\"", "\",\"text\":") {
                Some((from, text)) => Some(MessageBody::Text { from, text }),
                None => None,
            }
        } else if expect_ascii(bytes, 0, "{\"Left\":{\"from\":\"") {
            MessageBody::read_left(bytes)
        } else if expect_ascii(bytes, 0, "{\"DiceRoll\":{\"from\":\"") {
            MessageBody::read_dice_roll(bytes)
        } else {
            None
        }
    }

    /// Reads a message from its serialized form. Bytes that are not the
    /// serialized form of a message are refused.
    pub fn from_bytes(bytes: &[u8]) -> (r: Result<MessageBody, DecodeError>)
        ensures
            match r {
                Ok(body) => body_json(body@) == bytes@,
                Err(e) => e == DecodeError::AuthenticationOrFormat && !is_body_json(bytes@),
            },
    {
        let candidate = MessageBody::parse(bytes);
        let accepted = match &candidate {
            Some(body) => {
                let again = body.to_vec();
                bytes_equal(again.as_slice(), bytes)
            },
            None => false,
        };
        if accepted {
            match candidate {
                Some(body) => Ok(body),
                None => Err(DecodeError::AuthenticationOrFormat),
            }
        } else {
            proof {
                assert forall|b: MessageBodyView| valid_body(b) implies body_json(b) != bytes@ by {
                    if body_json(b) == bytes@ {
                        lemma_parse_body_json(b);
                    }
                }
            }
            Err(DecodeError::AuthenticationOrFormat)
        }
    }

    /// Seals the serialized message under the key and the nonce. It fails
    /// only on a message too long for the cipher. The ciphertext is longer
    /// than the serialized message by the tag.
    pub fn encrypt(&self, nonce: &[u8; 24], key: &[u8; 32]) -> (r: Result<Vec<u8>, SealError>)
        ensures
            r is Ok <==> sealable_len(body_json(self@).len()),
            r matches Ok(ciphertext) ==> ciphertext@ == sealed(key@, nonce@, body_json(self@)),
            r matches Ok(ciphertext) ==> ciphertext@.len() == body_json(self@).len() + TAG_LEN,
            r matches Ok(ciphertext) ==> opened(key@, nonce@, ciphertext@) == Some(
                body_json(self@),
            ),
            r matches Err(e) ==> e == SealError::MessageTooLong,
    {
        let plaintext = self.to_vec();
        if plaintext.len() as u64 > MAX_PLAINTEXT_LEN {
            return Err(SealError::MessageTooLong);
        }
        match aead_seal(key, nonce, plaintext.as_slice()) {
            Some(ciphertext) => Ok(ciphertext),
            None => Err(SealError::MessageTooLong),
        }
    }
}

impl Message {
    /// Seals a message into a new envelope, under the key and a fresh
    /// random nonce. It fails only on a message too long for the cipher;
    /// the envelope decrypts, under the same key, to the message.
    pub fn new(body: MessageBody, key: &[u8; 32]) -> (r: Result<Message, SealError>)
        ensures
            r is Ok <==> sealable_len(body_json(body@).len()),
            r matches Ok(m) ==> m@.ciphertext == sealed(key@, m@.nonce, body_json(body@))
                && decrypts_to(m@, key@, body@),
            r matches Err(e) ==> e == SealError::MessageTooLong,
    {
        let nonce = fresh_nonce();
        match body.encrypt(&nonce, key) {
            Ok(ciphertext) => Ok(Message { ciphertext, nonce }),
            Err(e) => Err(e),
        }
    }

    /// Opens the envelope under the key and reads the message in it. An
    /// envelope that does not open, one whose ciphertext is longer than
    /// the cipher takes, and one that opens to bytes that are no message,
    /// give the same error.
    pub fn decrypt(&self, key: &[u8; 32]) -> (r: Result<MessageBody, DecodeError>)
        ensures
            decrypt_outcome(self@, key@, body_result_view(r)),
    {
        if self.ciphertext.len() as u64 > MAX_PLAINTEXT_LEN + TAG_LEN as u64 {
            return Err(DecodeError::AuthenticationOrFormat);
        }
        match aead_open(key, &self.nonce, self.ciphertext.as_slice()) {
            None => Err(DecodeError::AuthenticationOrFormat),
            Some(plaintext) => match MessageBody::from_bytes(plaintext.as_slice()) {
                Ok(body) => {
                    proof {
                        body.lemma_view_valid();
                    }
                    Ok(body)
                },
                Err(e) => Err(DecodeError::AuthenticationOrFormat),
            },
        }
    }
}

} // verus!
