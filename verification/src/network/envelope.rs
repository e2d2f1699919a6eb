//! The frame around an encoded message: a network magic in front, and a limit on the length.
use crate::network::message::same_magic;
use crate::params::MAX_NETWORK_MESSAGE_SIZE;
use borsh::BorshDeserialize;
use vstd::prelude::*;

verus! {

/// Why a frame is refused.
#[derive(Clone, Copy, Debug, PartialEq, Eq, Structural)]
pub enum EnvelopeError {
    /// It is longer than a message may be.
    MessageTooLarge,
    /// It is too short to hold a magic.
    Truncated,
    /// It belongs to another network.
    MagicMismatch,
}

/// Calls `borsh::to_vec` on a magic, which writes its four bytes as they are. Writing to a vector does
/// not fail.
#[verifier::external_body]
fn borsh_magic(magic: &[u8; 4]) -> (r: Option<Vec<u8>>)
    ensures
        match r {
            Some(bytes) => bytes@ == magic@,
            None => false,
        },
{
    borsh::to_vec(magic).ok()
}

/// Calls `<[u8; 4]>::try_from_slice` of `borsh`, which reads four bytes as they are and fails on any
/// other number of bytes.
#[verifier::external_body]
fn magic_from_borsh(bytes: &[u8]) -> (r: Option<[u8; 4]>)
    ensures
        match r {
            Some(magic) => magic@ == bytes@,
            None => bytes@.len() != 4,
        },
{
    <[u8; 4]>::try_from_slice(bytes).ok()
}

/// An encoded message with the magic of the network that it was sent on.
#[derive(Clone, Debug, PartialEq, Eq)]
pub struct NetworkEnvelope {
    pub magic: [u8; 4],
    pub message: Vec<u8>,
}

impl NetworkEnvelope {
    /// The frame as bytes.
    pub open spec fn bytes(self) -> Seq<u8> {
        self.magic@ + self.message@
    }

    /// A frame for a network.
    pub fn new(network_magic: [u8; 4], message: Vec<u8>) -> (r: Self)
        ensures
            r.magic == network_magic,
            r.message == message,
    {
        NetworkEnvelope { magic: network_magic, message }
    }

    /// The frame as bytes, unless it is too long.
    pub fn to_bytes(&self) -> (r: Result<Vec<u8>, EnvelopeError>)
        ensures
            match r {
                Ok(bytes) => bytes@ == self.bytes() && self.bytes().len()
                    <= MAX_NETWORK_MESSAGE_SIZE,
                Err(error) => error == EnvelopeError::MessageTooLarge && self.bytes().len()
                    > MAX_NETWORK_MESSAGE_SIZE,
            },
    {
        let mut bytes: Vec<u8> = match borsh_magic(&self.magic) {
            Some(bytes) => bytes,
            None => Vec::new(),
        };
        bytes.extend_from_slice(self.message.as_slice());
        assert(bytes@ =~= self.bytes());
        if bytes.len() > MAX_NETWORK_MESSAGE_SIZE {
            return Err(EnvelopeError::MessageTooLarge);
        }
        Ok(bytes)
    }

    /// Takes a frame apart. Whose network it belongs to is not looked at here.
    pub fn split(bytes: &[u8]) -> (r: Result<Self, EnvelopeError>)
        ensures
            match r {
                Ok(envelope) => bytes@.len() <= MAX_NETWORK_MESSAGE_SIZE && envelope.bytes()
                    == bytes@,
                Err(error) => error == (if bytes@.len() > MAX_NETWORK_MESSAGE_SIZE {
                    EnvelopeError::MessageTooLarge
                } else {
                    EnvelopeError::Truncated
                }) && (bytes@.len() > MAX_NETWORK_MESSAGE_SIZE || bytes@.len() < 4),
            },
    {
        if bytes.len() > MAX_NETWORK_MESSAGE_SIZE {
            return Err(EnvelopeError::MessageTooLarge);
        }
        if bytes.len() < 4 {
            return Err(EnvelopeError::Truncated);
        }
        let head = vstd::slice::slice_subrange(bytes, 0, 4);
        let body = vstd::slice::slice_subrange(bytes, 4, bytes.len());
        match magic_from_borsh(head) {
            Some(magic) => {
                let mut message: Vec<u8> = Vec::new();
                message.extend_from_slice(body);
                let envelope = NetworkEnvelope { magic, message };
                assert(envelope.bytes() =~= bytes@);
                Ok(envelope)
            },
            None => Err(EnvelopeError::Truncated),
        }
    }

    /// Whether the frame belongs to a network.
    pub fn check_magic(&self, network_magic: &[u8; 4]) -> (r: Result<(), EnvelopeError>)
        ensures
            r == (if self.magic@ == network_magic@ {
                Ok::<(), EnvelopeError>(())
            } else {
                Err::<(), EnvelopeError>(EnvelopeError::MagicMismatch)
            }),
    {
        if same_magic(&self.magic, network_magic) {
            Ok(())
        } else {
            Err(EnvelopeError::MagicMismatch)
        }
    }

    /// Takes a frame of a network apart.
    pub fn from_bytes(bytes: &[u8], network_magic: &[u8; 4]) -> (r: Result<Self, EnvelopeError>)
        ensures
            match r {
                Ok(envelope) => bytes@.len() <= MAX_NETWORK_MESSAGE_SIZE && envelope.bytes()
                    == bytes@ && envelope.magic@ == network_magic@,
                Err(error) => if bytes@.len() > MAX_NETWORK_MESSAGE_SIZE {
                    error == EnvelopeError::MessageTooLarge
                } else if bytes@.len() < 4 {
                    error == EnvelopeError::Truncated
                } else {
                    error == EnvelopeError::MagicMismatch && bytes@.take(4) != network_magic@
                },
            },
    {
        let envelope = match Self::split(bytes) {
            Ok(envelope) => envelope,
            Err(error) => {
                return Err(error);
            },
        };
        assert(bytes@.take(4) =~= envelope.magic@);
        match envelope.check_magic(network_magic) {
            Ok(_) => Ok(envelope),
            Err(error) => Err(error),
        }
    }
}

/// A frame that was sent is received as it was sent: the bytes determine magic and message.
pub proof fn frames_round_trip(sent: NetworkEnvelope, received: NetworkEnvelope)
    requires
        received.bytes() == sent.bytes(),
    ensures
        received.magic@ == sent.magic@,
        received.message@ == sent.message@,
{
    let bytes = sent.bytes();
    assert(sent.magic@ =~= bytes.take(4));
    assert(received.magic@ =~= bytes.take(4));
    assert(sent.message@ =~= bytes.skip(4));
    assert(received.message@ =~= bytes.skip(4));
}

} // verus!
