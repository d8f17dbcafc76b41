//! STUN binding messages as the traversal and the address lookup use them.
//! The encoding itself is the work of the `stun_codec` crate.

use crate::address::SocketAddress;
use bytecodec::{DecodeExt, EncodeExt};
use stun_codec::rfc5389::attributes::{
    MappedAddress, MessageIntegrity, XorMappedAddress, XorMappedAddress2,
};
use stun_codec::rfc5389::methods::BINDING;
use stun_codec::rfc5389::Attribute;
use stun_codec::{Message, MessageClass, MessageDecoder, MessageEncoder, TransactionId};
use vstd::prelude::*;

verus! {

/// Number of the binding method.
pub const BINDING_METHOD: u16 = 1;

/// What is handed to the decoder is shorter than this: the codec keeps the
/// lengths of a message in sixteen bits.
pub const DECODE_LIMIT: usize = 0x1_0000;

/// Class of a STUN message.
#[derive(Debug, Clone, Copy, PartialEq, Eq, Structural)]
pub enum StunClass {
    Request,
    Indication,
    SuccessResponse,
    ErrorResponse,
}

/// What stands in the header of a STUN message.
#[derive(Debug, Clone, Copy)]
pub struct StunHeader {
    pub class: StunClass,
    pub method: u16,
    pub transaction_id: [u8; 12],
}

/// What a check of the message integrity of a STUN message finds.
#[derive(Debug, Clone, Copy, PartialEq, Eq, Structural)]
pub enum Integrity {
    /// The bytes are no STUN message.
    Undecoded,
    /// The message carries no message integrity.
    Absent,
    /// The message integrity was not made with the secret.
    Mismatch,
    /// The message integrity was made with the secret.
    Valid,
}

/// The bytes of a binding request without attributes: the type of the
/// message, no length, the magic cookie, and the transaction.
pub open spec fn request_bytes(transaction_id: Seq<u8>) -> Seq<u8> {
    seq![0x00u8, 0x01u8, 0x00u8, 0x00u8, 0x21u8, 0x12u8, 0xa4u8, 0x42u8] + transaction_id
}

/// The bytes of the binding success response of the given transaction with
/// `mapped` as its XOR-mapped address; `None` where the codec refuses to
/// encode it.
pub uninterp spec fn stun_success(transaction_id: Seq<u8>, mapped: SocketAddress) -> Option<
    Seq<u8>,
>;

/// The view of bytes that may be missing.
pub open spec fn bytes_view(bytes: Option<Vec<u8>>) -> Option<Seq<u8>> {
    match bytes {
        Some(b) => Some(b@),
        None => None,
    }
}

/// Encodes a binding request without attributes with `stun_codec`:
/// `Message::new`, then `encode_into_bytes`. The encoder writes the header of
/// twenty bytes and nothing else: the type 1 of a binding request, the length
/// 0, the magic cookie and the transaction.
#[verifier::external_body]
pub(crate) fn encode_request(transaction_id: &[u8; 12]) -> (r: Option<Vec<u8>>)
    ensures
        bytes_view(r) == Some(request_bytes(transaction_id@)),
{
    let id = TransactionId::new(*transaction_id);
    let m = Message::<Attribute>::new(MessageClass::Request, BINDING, id);
    MessageEncoder::new().encode_into_bytes(m).ok()
}

/// Encodes a binding success response with `stun_codec`: `Message::new`, an
/// `add_attribute` of the `XorMappedAddress` of `mapped`, then
/// `encode_into_bytes`. The contract only names the bytes that come out.
#[verifier::external_body]
pub(crate) fn encode_success(transaction_id: &[u8; 12], mapped: SocketAddress) -> (r: Option<
    Vec<u8>,
>)
    ensures
        bytes_view(r) == stun_success(transaction_id@, mapped),
{
    let id = TransactionId::new(*transaction_id);
    let mut m = Message::<Attribute>::new(MessageClass::SuccessResponse, BINDING, id);
    m.add_attribute(XorMappedAddress::new(match mapped {
        SocketAddress::V4 { ip, port } => (core::net::Ipv4Addr::from_bits(ip), port).into(),
        SocketAddress::V6 { ip, port } => (core::net::Ipv6Addr::from_bits(ip), port).into(),
    }));
    MessageEncoder::new().encode_into_bytes(m).ok()
}

/// The bytes of the STUN message that `message` is, closed by a message
/// integrity keyed with `secret`; `None` where `message` is no STUN message or
/// the codec refuses.
pub uninterp spec fn stun_signed(message: Seq<u8>, secret: Seq<char>) -> Option<Seq<u8>>;

/// Signs a STUN message with `stun_codec`: `decode_from_bytes`, an
/// `add_attribute` of the `MessageIntegrity` that `new_short_term_credential`
/// makes of the message and the secret, then `encode_into_bytes`. The
/// contract only names the bytes that come out. The decoder checks a
/// fingerprint with lengths of sixteen bits, and is not handed more.
#[verifier::external_body]
pub(crate) fn sign(message: &[u8], secret: &str) -> (r: Option<Vec<u8>>)
    requires
        message@.len() < DECODE_LIMIT,
    ensures
        bytes_view(r) == stun_signed(message@, secret@),
{
    let mut m = MessageDecoder::<Attribute>::new().decode_from_bytes(message).ok()?.ok()?;
    m.add_attribute(MessageIntegrity::new_short_term_credential(&m, secret).ok()?);
    MessageEncoder::new().encode_into_bytes(m).ok()
}

/// The header of the STUN message that `buf` is, if it is one.
pub uninterp spec fn stun_header(buf: Seq<u8>) -> Option<StunHeader>;

/// Decodes `buf` with `stun_codec` (`decode_from_bytes`, which takes the whole
/// of `buf` as one message) and reads class, method and transaction from the
/// message. The decoder checks a fingerprint with lengths of sixteen bits,
/// and is not handed more; the same holds of the decoders below.
#[verifier::external_body]
pub(crate) fn decode_header(buf: &[u8]) -> (r: Option<StunHeader>)
    requires
        buf@.len() < DECODE_LIMIT,
    ensures
        r == stun_header(buf@),
{
    let m = MessageDecoder::<Attribute>::new().decode_from_bytes(buf).ok()?.ok()?;
    let class = match m.class() {
        MessageClass::Request => StunClass::Request,
        MessageClass::Indication => StunClass::Indication,
        MessageClass::SuccessResponse => StunClass::SuccessResponse,
        MessageClass::ErrorResponse => StunClass::ErrorResponse,
    };
    Some(StunHeader { class, method: m.method().as_u16(), transaction_id: *m.transaction_id().as_bytes() })
}

/// What the check of the message integrity of the message in `buf` against
/// `secret` finds.
pub uninterp spec fn stun_integrity(buf: Seq<u8>, secret: Seq<char>) -> Integrity;

/// Decodes `buf` with `stun_codec` and checks its first `MessageIntegrity`
/// attribute with `check_short_term_credential`.
#[verifier::external_body]
pub(crate) fn check_integrity(buf: &[u8], secret: &str) -> (r: Integrity)
    requires
        buf@.len() < DECODE_LIMIT,
    ensures
        r == stun_integrity(buf@, secret@),
{
    let m = match MessageDecoder::<Attribute>::new().decode_from_bytes(buf) {
        Ok(Ok(m)) => m,
        _ => return Integrity::Undecoded,
    };
    match m.get_attribute::<MessageIntegrity>().map(|i| i.check_short_term_credential(secret)) {
        None => Integrity::Absent,
        Some(Err(_)) => Integrity::Mismatch,
        Some(Ok(())) => Integrity::Valid,
    }
}

/// The first XOR-MAPPED-ADDRESS of the STUN message that `buf` is.
pub uninterp spec fn stun_xor_mapped(buf: Seq<u8>) -> Option<SocketAddress>;

/// Decodes `buf` with `stun_codec` and reads its first `XorMappedAddress`
/// attribute with `get_attribute`.
#[verifier::external_body]
pub(crate) fn decode_xor_mapped(buf: &[u8]) -> (r: Option<SocketAddress>)
    requires
        buf@.len() < DECODE_LIMIT,
    ensures
        r == stun_xor_mapped(buf@),
{
    let m = MessageDecoder::<Attribute>::new().decode_from_bytes(buf).ok()?.ok()?;
    Some(match m.get_attribute::<XorMappedAddress>()?.address() {
        core::net::SocketAddr::V4(a) => SocketAddress::V4 { ip: a.ip().to_bits(), port: a.port() },
        core::net::SocketAddr::V6(a) => SocketAddress::V6 { ip: a.ip().to_bits(), port: a.port() },
    })
}

/// The first XOR-MAPPED-ADDRESS of the older code point of the STUN message
/// that `buf` is.
pub uninterp spec fn stun_xor_mapped2(buf: Seq<u8>) -> Option<SocketAddress>;

/// Decodes `buf` with `stun_codec` and reads its first `XorMappedAddress2`
/// attribute with `get_attribute`.
#[verifier::external_body]
pub(crate) fn decode_xor_mapped2(buf: &[u8]) -> (r: Option<SocketAddress>)
    requires
        buf@.len() < DECODE_LIMIT,
    ensures
        r == stun_xor_mapped2(buf@),
{
    let m = MessageDecoder::<Attribute>::new().decode_from_bytes(buf).ok()?.ok()?;
    Some(match m.get_attribute::<XorMappedAddress2>()?.address() {
        core::net::SocketAddr::V4(a) => SocketAddress::V4 { ip: a.ip().to_bits(), port: a.port() },
        core::net::SocketAddr::V6(a) => SocketAddress::V6 { ip: a.ip().to_bits(), port: a.port() },
    })
}

/// The first MAPPED-ADDRESS of the STUN message that `buf` is.
pub uninterp spec fn stun_mapped(buf: Seq<u8>) -> Option<SocketAddress>;

/// Decodes `buf` with `stun_codec` and reads its first `MappedAddress`
/// attribute with `get_attribute`.
#[verifier::external_body]
pub(crate) fn decode_mapped(buf: &[u8]) -> (r: Option<SocketAddress>)
    requires
        buf@.len() < DECODE_LIMIT,
    ensures
        r == stun_mapped(buf@),
{
    let m = MessageDecoder::<Attribute>::new().decode_from_bytes(buf).ok()?.ok()?;
    Some(match m.get_attribute::<MappedAddress>()?.address() {
        core::net::SocketAddr::V4(a) => SocketAddress::V4 { ip: a.ip().to_bits(), port: a.port() },
        core::net::SocketAddr::V6(a) => SocketAddress::V6 { ip: a.ip().to_bits(), port: a.port() },
    })
}

} // verus!
