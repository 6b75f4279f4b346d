//! The chat client: what this participant sends to the room, as the bytes
//! to broadcast.

use crate::dice::Dice;
use crate::message::{
    body_json, decrypts_to, envelope_wire, sealable_len, Message, MessageBody, MessageBodyView,
    MessageView, SealError, NONCE_LEN,
};
use crate::peer::PeerId;
use vstd::prelude::*;

verus! {

/// A broadcaster bound to one symmetric key and one local identity.
#[derive(Clone, Debug)]
pub struct ChatClient {
    id: PeerId,
    key: [u8; 32],
}

/// The mathematical content of a [`ChatClient`].
pub struct ChatClientView {
    pub id: Seq<u8>,
    pub key: Seq<u8>,
}

impl View for ChatClient {
    type V = ChatClientView;

    closed spec fn view(&self) -> ChatClientView {
        ChatClientView { id: self.id@, key: self.key@ }
    }
}

/// Whether the bytes are the wire form of an envelope that opens, under
/// the key, to the message.
pub open spec fn carries(bytes: Seq<u8>, key: Seq<u8>, body: MessageBodyView) -> bool {
    exists|m: MessageView|
        m.nonce.len() == NONCE_LEN && #[trigger] envelope_wire(m) == bytes && decrypts_to(
            m,
            key,
            body,
        )
}

/// What sending a message gives: the bytes to broadcast, which carry the
/// message, or an error for a message that is too long to seal.
pub open spec fn broadcast_result(
    client: ChatClientView,
    body: MessageBodyView,
    r: Result<Vec<u8>, SealError>,
) -> bool {
    match r {
        Ok(bytes) => sealable_len(body_json(body).len()) && carries(bytes@, client.key, body),
        Err(e) => e == SealError::MessageTooLong && !sealable_len(body_json(body).len()),
    }
}

impl ChatClient {
    /// A client for the participant `id` in the room with the key `key`.
    pub fn new(id: PeerId, key: [u8; 32]) -> (client: ChatClient)
        ensures
            client@ == (ChatClientView { id: id@, key: key@ }),
    {
        ChatClient { id, key }
    }

    /// The local identity.
    pub fn id(&self) -> (id: PeerId)
        ensures
            id@ == self@.id,
    {
        self.id
    }

    /// Seals a message and gives the bytes to broadcast.
    pub fn broadcast(&self, body: MessageBody) -> (r: Result<Vec<u8>, SealError>)
        ensures
            broadcast_result(self@, body@, r),
    {
        match Message::new(body, &self.key) {
            Ok(message) => {
                let bytes = message.to_vec();
                proof {
                    message.lemma_nonce_len();
                    assert(envelope_wire(message@) == bytes@);
                }
                Ok(bytes)
            },
            Err(e) => Err(e),
        }
    }

    /// The bytes that tell the room a text.
    pub fn broadcast_text(&self, text: String) -> (r: Result<Vec<u8>, SealError>)
        ensures
            broadcast_result(self@, MessageBodyView::Text { from: self@.id, text: text@ }, r),
    {
        self.broadcast(MessageBody::Text { from: self.id, text })
    }

    /// The bytes that announce this participant under a name.
    pub fn broadcast_join(&self, name: String) -> (r: Result<Vec<u8>, SealError>)
        ensures
            broadcast_result(self@, MessageBodyView::Joined { from: self@.id, name: name@ }, r),
    {
        self.broadcast(MessageBody::Joined { from: self.id, name })
    }

    /// The bytes that tell the room that this participant leaves.
    pub fn broadcast_left(&self) -> (r: Result<Vec<u8>, SealError>)
        ensures
            broadcast_result(self@, MessageBodyView::Left { from: self@.id }, r),
    {
        self.broadcast(MessageBody::Left { from: self.id })
    }

    /// The bytes that tell the room a dice roll.
    pub fn broadcast_dice_roll(&self, result: u32, dice: Dice, rolls: Vec<u32>) -> (r: Result<
        Vec<u8>,
        SealError,
    >)
        ensures
            broadcast_result(
                self@,
                MessageBodyView::DiceRoll { from: self@.id, result, dice: dice@, rolls: rolls@ },
                r,
            ),
    {
        self.broadcast(MessageBody::DiceRoll { from: self.id, result, dice, rolls })
    }
}

} // verus!
