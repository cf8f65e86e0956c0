//! The application messages exchanged over gossip, and their encoding.
use vstd::prelude::*;
use crate::codec::{
    append_framed, append_u32_le, framed, framed_at, lemma_framed_at_framed,
    lemma_le_value_bound, lemma_le_value_of_u32_le, le_value, read_framed, read_u32_le, u32_le, DecodeError,
};

verus! {

/// A beacon block, held as the bytes of its own encoding.
#[derive(Debug, Clone, PartialEq, Eq)]
pub struct BeaconBlock {
    pub body: Vec<u8>,
}

impl BeaconBlock {
    /// The block with an empty body.
    pub fn empty() -> (r: Self)
        ensures
            r.body@ == Seq::<u8>::empty(),
    {
        BeaconBlock { body: Vec::new() }
    }
}

/// An attestation, held as the bytes of its own encoding.
#[derive(Debug, Clone, PartialEq, Eq)]
pub struct Attestation {
    pub body: Vec<u8>,
}

/// Messages that are passed to and from the gossip protocol.
#[derive(Debug, Clone, PartialEq, Eq)]
pub enum PubsubMessage {
    /// Notification of a new block.
    Block(BeaconBlock),
    /// Notification of a new attestation.
    Attestation(Attestation),
}

/// The mathematical value of a `PubsubMessage`: its variant and its body.
pub enum MessageView {
    Block(Seq<u8>),
    Attestation(Seq<u8>),
}

impl View for PubsubMessage {
    type V = MessageView;

    open spec fn view(&self) -> MessageView {
        match self {
            PubsubMessage::Block(b) => MessageView::Block(b.body@),
            PubsubMessage::Attestation(a) => MessageView::Attestation(a.body@),
        }
    }
}

/// The discriminant that selects a variant on the wire.
pub open spec fn tag_of(m: MessageView) -> u32 {
    match m {
        MessageView::Block(_) => 0,
        MessageView::Attestation(_) => 1,
    }
}

pub open spec fn body_of(m: MessageView) -> Seq<u8> {
    match m {
        MessageView::Block(b) => b,
        MessageView::Attestation(b) => b,
    }
}

/// A message can be encoded when its body's length fits in the length prefix.
pub open spec fn encodable(m: MessageView) -> bool {
    body_of(m).len() <= u32::MAX
}

/// The wire encoding of a message: the discriminant, then the framed body.
pub open spec fn encoding(m: MessageView) -> Seq<u8> {
    u32_le(tag_of(m)) + framed(body_of(m))
}

/// What decoding `b` from offset `i` gives: the message and the offset after it.
pub open spec fn decode_at(b: Seq<u8>, i: int) -> Result<(MessageView, int), DecodeError> {
    if i + 4 > b.len() {
        Err(DecodeError::TooShort)
    } else if le_value(b, i) == 0 {
        match framed_at(b, i + 4) {
            Ok((s, j)) => Ok((MessageView::Block(s), j)),
            Err(e) => Err(e),
        }
    } else if le_value(b, i) == 1 {
        match framed_at(b, i + 4) {
            Ok((s, j)) => Ok((MessageView::Attestation(s), j)),
            Err(e) => Err(e),
        }
    } else {
        Err(DecodeError::Invalid)
    }
}

/// The least length at which `b` holds the whole message that its first four
/// bytes declare.
pub open spec fn required_len(b: Seq<u8>) -> int {
    if b.len() < 4 {
        4
    } else if le_value(b, 0) > 1 {
        4
    } else if b.len() < 8 {
        8
    } else {
        8 + le_value(b, 4)
    }
}

impl PubsubMessage {
    /// Appends the wire encoding of this message.
    pub fn ssz_append(&self, s: &mut Vec<u8>)
        requires
            encodable(self@),
        ensures
            final(s)@ == old(s)@ + encoding(self@),
    {
        match self {
            PubsubMessage::Block(block) => {
                append_u32_le(0, s);
                append_framed(&block.body, s);
            },
            PubsubMessage::Attestation(attestation) => {
                append_u32_le(1, s);
                append_framed(&attestation.body, s);
            },
        }
        assert(final(s)@ =~= old(s)@ + encoding(self@));
    }

    /// Decodes a message starting at `index`, returning it and the offset
    /// just after the bytes it took.
    pub fn ssz_decode(bytes: &[u8], index: usize) -> (r: Result<(PubsubMessage, usize), DecodeError>)
        ensures
            match (r, decode_at(bytes@, index as int)) {
                (Ok((m, j)), Ok((v, k))) => m@ == v && j == k,
                (Err(e), Err(f)) => e == f,
                _ => false,
            },
    {
        let (id, start) = match read_u32_le(bytes, index) {
            Ok(p) => p,
            Err(e) => return Err(e),
        };
        proof {
            lemma_le_value_bound(bytes@, index as int);
        }
        if id == 0 {
            match read_framed(bytes, start) {
                Ok((body, next)) => Ok((PubsubMessage::Block(BeaconBlock { body }), next)),
                Err(e) => Err(e),
            }
        } else if id == 1 {
            match read_framed(bytes, start) {
                Ok((body, next)) => Ok(
                    (PubsubMessage::Attestation(Attestation { body }), next),
                ),
                Err(e) => Err(e),
            }
        } else {
            Err(DecodeError::Invalid)
        }
    }
}

/// The wire encoding of `message`.
pub fn ssz_encode(message: &PubsubMessage) -> (r: Vec<u8>)
    requires
        encodable(message@),
    ensures
        r@ == encoding(message@),
{
    let mut s: Vec<u8> = Vec::new();
    message.ssz_append(&mut s);
    assert(s@ =~= encoding(message@));
    s
}

/// Decoding the encoding of a message, wherever it stands among other bytes,
/// gives the message back and the offset just after its encoding.
pub proof fn lemma_decode_encoding_within(m: MessageView, pre: Seq<u8>, suf: Seq<u8>)
    requires
        encodable(m),
    ensures
        decode_at(pre + encoding(m) + suf, pre.len() as int) == Ok::<(MessageView, int), DecodeError>(
            (m, (pre.len() + encoding(m).len()) as int),
        ),
{
    let b = pre + encoding(m) + suf;
    let i = pre.len() as int;
    assert(b =~= pre + u32_le(tag_of(m)) + (framed(body_of(m)) + suf));
    lemma_le_value_of_u32_le(tag_of(m), pre, framed(body_of(m)) + suf);
    assert(b =~= (pre + u32_le(tag_of(m))) + framed(body_of(m)) + suf);
    lemma_framed_at_framed(body_of(m), pre + u32_le(tag_of(m)), suf);
}

/// Decoding the encoding of a message gives the message back, having taken
/// every byte.
pub proof fn lemma_round_trip(m: MessageView)
    requires
        encodable(m),
    ensures
        decode_at(encoding(m), 0) == Ok::<(MessageView, int), DecodeError>(
            (m, encoding(m).len() as int),
        ),
{
    lemma_decode_encoding_within(m, Seq::empty(), Seq::empty());
    assert(Seq::<u8>::empty() + encoding(m) + Seq::<u8>::empty() =~= encoding(m));
}

/// Four or more bytes whose discriminant is neither 0 nor 1 are refused as
/// invalid, whatever follows.
pub proof fn lemma_invalid_tag(b: Seq<u8>)
    requires
        b.len() >= 4,
        le_value(b, 0) != 0,
        le_value(b, 0) != 1,
    ensures
        decode_at(b, 0) == Err::<(MessageView, int), DecodeError>(DecodeError::Invalid),
{
}

/// Input shorter than what its discriminant declares is refused as too short;
/// input that holds all of it, with a valid discriminant, is accepted.
pub proof fn lemma_truncated(b: Seq<u8>)
    ensures
        b.len() < required_len(b) ==> decode_at(b, 0) == Err::<(MessageView, int), DecodeError>(
            DecodeError::TooShort,
        ),
        b.len() >= required_len(b) && le_value(b, 0) <= 1 ==> decode_at(b, 0) is Ok,
{
}

} // verus!
