use vstd::prelude::*;

verus! {

/// Wire payload of the liveness protocol: a tagged union with exactly two
/// variants. Anything that does not decode to one of them is rejected.
///
/// The five-byte framing below is this library's own; transports carry the
/// buffers opaquely, and both ends of a connection must share it.
#[derive(Clone, Copy, PartialEq, Eq, Structural, Debug)]
pub enum PingMessage {
    Ping { nonce: u32 },
    Pong { nonce: u32 },
}

/// Wire tag that introduces a `Ping` payload.
pub const PING_TAG: u8 = 1;

/// Wire tag that introduces a `Pong` payload.
pub const PONG_TAG: u8 = 2;

/// The number of bytes of an encoded payload: one tag byte and four nonce
/// bytes.
pub const ENCODED_LEN: usize = 5;

/// The four little-endian bytes of a 32-bit nonce.
pub open spec fn spec_nonce_bytes(n: u32) -> Seq<u8> {
    seq![
        (n & 0xff) as u8,
        ((n >> 8) & 0xff) as u8,
        ((n >> 16) & 0xff) as u8,
        ((n >> 24) & 0xff) as u8,
    ]
}

/// The encoding of a payload: its tag byte followed by the nonce bytes.
pub open spec fn spec_encode(m: PingMessage) -> Seq<u8> {
    match m {
        PingMessage::Ping { nonce } => seq![PING_TAG] + spec_nonce_bytes(nonce),
        PingMessage::Pong { nonce } => seq![PONG_TAG] + spec_nonce_bytes(nonce),
    }
}

/// The 32-bit nonce read back from four little-endian bytes.
pub open spec fn spec_nonce_of_bytes(b0: u8, b1: u8, b2: u8, b3: u8) -> u32 {
    (b0 as u32) | ((b1 as u32) << 8) | ((b2 as u32) << 16) | ((b3 as u32) << 24)
}

/// The decoding of a byte sequence: a payload exactly for a well-formed
/// five-byte encoding, and nothing otherwise.
pub open spec fn spec_decode(data: Seq<u8>) -> Option<PingMessage> {
    if data.len() == ENCODED_LEN && data[0] == PING_TAG {
        Some(PingMessage::Ping { nonce: spec_nonce_of_bytes(data[1], data[2], data[3], data[4]) })
    } else if data.len() == ENCODED_LEN && data[0] == PONG_TAG {
        Some(PingMessage::Pong { nonce: spec_nonce_of_bytes(data[1], data[2], data[3], data[4]) })
    } else {
        None
    }
}

/// Decoding inverts encoding: every payload is recovered intact from its own
/// encoding.
pub proof fn lemma_encode_decode_round_trip(m: PingMessage)
    ensures
        spec_decode(spec_encode(m)) == Some(m),
{
    let n = match m {
        PingMessage::Ping { nonce } => nonce,
        PingMessage::Pong { nonce } => nonce,
    };
    assert(spec_nonce_of_bytes(
        (n & 0xff) as u8,
        ((n >> 8) & 0xff) as u8,
        ((n >> 16) & 0xff) as u8,
        ((n >> 24) & 0xff) as u8,
    ) == n) by (bit_vector);
}

impl PingMessage {
    /// Builds the encoded form of a `Ping` carrying the given nonce.
    pub fn build_ping(nonce: u32) -> (data: Vec<u8>)
        ensures
            data@ == spec_encode(PingMessage::Ping { nonce }),
    {
        Self::encode_with_tag(PING_TAG, nonce)
    }

    /// Builds the encoded form of a `Pong` carrying the given nonce.
    pub fn build_pong(nonce: u32) -> (data: Vec<u8>)
        ensures
            data@ == spec_encode(PingMessage::Pong { nonce }),
    {
        Self::encode_with_tag(PONG_TAG, nonce)
    }

    fn encode_with_tag(tag: u8, nonce: u32) -> (data: Vec<u8>)
        ensures
            data@ == seq![tag] + spec_nonce_bytes(nonce),
    {
        let mut data: Vec<u8> = Vec::new();
        data.push(tag);
        data.push((nonce & 0xff) as u8);
        data.push(((nonce >> 8) & 0xff) as u8);
        data.push(((nonce >> 16) & 0xff) as u8);
        data.push(((nonce >> 24) & 0xff) as u8);
        proof {
            assert(data@ =~= seq![tag] + spec_nonce_bytes(nonce));
        }
        data
    }

    /// Decodes a received byte buffer, accepting exactly the well-formed
    /// encodings.
    pub fn decode(data: &[u8]) -> (m: Option<PingMessage>)
        ensures
            m == spec_decode(data@),
    {
        if data.len() != ENCODED_LEN {
            return None;
        }
        let nonce = (data[1] as u32) | ((data[2] as u32) << 8) | ((data[3] as u32) << 16) | (
        (data[4] as u32) << 24);
        if data[0] == PING_TAG {
            Some(PingMessage::Ping { nonce })
        } else if data[0] == PONG_TAG {
            Some(PingMessage::Pong { nonce })
        } else {
            None
        }
    }
}

} // verus!
