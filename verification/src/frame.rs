//! The binary wire format: request frames, the authentication frame, and
//! response frame decoding.
//!
//! All integers on the wire are little-endian. A request frame is
//! `[tag][key_len:u16][key]`, with `[value_len:u32][flags][value]`
//! appended for a Set (the flags byte is reserved and always zero here).
//! A response frame is `[status][payload_len:u32][payload]`; the declared
//! length must be matched exactly by the bytes the connection delivered,
//! or the frame is rejected as a transport fault.

use vstd::prelude::*;
use vstd::bytes::*;
use vstd::slice::{slice_subrange, slice_to_vec};

use crate::error::VaultError;

verus! {

/// Operation tag for a Get request.
pub const TAG_GET: u8 = 0x01;

/// Operation tag for a Set request.
pub const TAG_SET: u8 = 0x02;

/// Operation tag for a Delete request.
pub const TAG_DELETE: u8 = 0x03;

/// Operation tag for a Health request.
pub const TAG_HEALTH: u8 = 0x05;

/// Operation tag for the authentication exchange.
pub const TAG_AUTH: u8 = 0x06;

/// The one response status that means success; any other value is a
/// server-reported failure.
pub const STATUS_SUCCESS: u8 = 0x00;

/// The largest key (or credential) the two-byte length field can carry.
pub const MAX_KEY_LEN: usize = 0xFFFF;

/// The largest value the four-byte length field can carry.
pub const MAX_VALUE_LEN: usize = 0xFFFF_FFFF;

/// The frame `[tag][key_len:u16][key]`, used for Get, Delete and Health
/// requests and (with the AUTH tag) for the authentication exchange.
pub open spec fn spec_key_frame(tag: u8, key: Seq<u8>) -> Seq<u8>
    recommends
        key.len() <= MAX_KEY_LEN,
{
    seq![tag] + spec_u16_to_le_bytes(key.len() as u16) + key
}

/// The frame `[tag][key_len:u16][key][value_len:u32][flags][value]` of a
/// Set request. The flags byte is reserved for compression and always
/// zero in this client.
pub open spec fn spec_set_frame(key: Seq<u8>, value: Seq<u8>) -> Seq<u8>
    recommends
        key.len() <= MAX_KEY_LEN,
        value.len() <= MAX_VALUE_LEN,
{
    spec_key_frame(TAG_SET, key) + spec_u32_to_le_bytes(value.len() as u32) + seq![0u8] + value
}

/// The authentication frame that presents a configured credential.
pub open spec fn spec_auth_frame(credential: Seq<u8>) -> Seq<u8>
    recommends
        credential.len() <= MAX_KEY_LEN,
{
    spec_key_frame(TAG_AUTH, credential)
}

/// The response frame `[status][payload_len:u32][payload]`.
pub open spec fn spec_response_frame(status: u8, payload: Seq<u8>) -> Seq<u8>
    recommends
        payload.len() <= MAX_VALUE_LEN,
{
    seq![status] + spec_u32_to_le_bytes(payload.len() as u32) + payload
}

/// The payload length a response header declares.
pub open spec fn spec_declared_len(data: Seq<u8>) -> nat
    recommends
        data.len() >= 5,
{
    spec_u32_from_le_bytes(data.subrange(1, 5)) as nat
}

/// What a delivered byte sequence decodes to: the payload on a success
/// status, the server's status on any other, and a transport fault when
/// the header is incomplete or the declared payload length exceeds the
/// bytes actually delivered.
pub open spec fn spec_decode_response(data: Seq<u8>) -> Result<Seq<u8>, VaultError> {
    if data.len() < 5 {
        Err(VaultError::Transport)
    } else if data[0] != STATUS_SUCCESS {
        Err(VaultError::Server(data[0] as u16))
    } else if data.len() < 5 + spec_declared_len(data) {
        Err(VaultError::Transport)
    } else {
        Ok(data.subrange(5, 5 + spec_declared_len(data) as int))
    }
}

/// Builds the `[tag][key_len:u16][key]` frame.
pub fn encode_key_frame(tag: u8, key: &[u8]) -> (frame: Vec<u8>)
    requires
        key@.len() <= MAX_KEY_LEN,
    ensures
        frame@ == spec_key_frame(tag, key@),
{
    let mut frame: Vec<u8> = Vec::new();
    frame.push(tag);
    let mut len_bytes = u16_to_le_bytes(key.len() as u16);
    frame.append(&mut len_bytes);
    let mut key_bytes = slice_to_vec(key);
    frame.append(&mut key_bytes);
    proof {
        assert(frame@ =~= spec_key_frame(tag, key@));
    }
    frame
}

/// Builds the Set frame, with the reserved flags byte left at zero.
pub fn encode_set_frame(key: &[u8], value: &[u8]) -> (frame: Vec<u8>)
    requires
        key@.len() <= MAX_KEY_LEN,
        value@.len() <= MAX_VALUE_LEN,
    ensures
        frame@ == spec_set_frame(key@, value@),
{
    let mut frame = encode_key_frame(TAG_SET, key);
    let mut len_bytes = u32_to_le_bytes(value.len() as u32);
    frame.append(&mut len_bytes);
    frame.push(0u8);
    let mut value_bytes = slice_to_vec(value);
    frame.append(&mut value_bytes);
    proof {
        assert(frame@ =~= spec_set_frame(key@, value@));
    }
    frame
}

/// Builds the authentication frame for a credential.
pub fn encode_auth_frame(credential: &[u8]) -> (frame: Vec<u8>)
    requires
        credential@.len() <= MAX_KEY_LEN,
    ensures
        frame@ == spec_auth_frame(credential@),
{
    encode_key_frame(TAG_AUTH, credential)
}

/// Splits the five response header bytes into the status and the declared
/// payload length. A header of any other size is a transport fault.
pub fn parse_header(header: &[u8]) -> (r: Result<(u8, u32), VaultError>)
    ensures
        header@.len() == 5 ==> r == Ok::<(u8, u32), VaultError>(
            (header@[0], spec_u32_from_le_bytes(header@.subrange(1, 5))),
        ),
        header@.len() != 5 ==> r == Err::<(u8, u32), VaultError>(VaultError::Transport),
{
    if header.len() != 5 {
        return Err(VaultError::Transport);
    }
    let status = header[0];
    let declared = u32_from_le_bytes(slice_subrange(header, 1, 5));
    Ok((status, declared))
}

/// Decodes the bytes a connection delivered in reply to one request.
pub fn decode_response(data: &[u8]) -> (r: Result<Vec<u8>, VaultError>)
    ensures
        (match r {
            Ok(payload) => spec_decode_response(data@) == Ok::<Seq<u8>, VaultError>(payload@),
            Err(e) => spec_decode_response(data@) == Err::<Seq<u8>, VaultError>(e),
        }),
{
    if data.len() < 5 {
        return Err(VaultError::Transport);
    }
    let status = data[0];
    if status != STATUS_SUCCESS {
        return Err(VaultError::Server(status as u16));
    }
    let declared = u32_from_le_bytes(slice_subrange(data, 1, 5));
    let declared_len = declared as usize;
    if data.len() - 5 < declared_len {
        return Err(VaultError::Transport);
    }
    let payload = slice_to_vec(slice_subrange(data, 5, 5 + declared_len));
    Ok(payload)
}

/// A response frame assembled from a status and a payload decodes back to
/// that payload on the success status, and to the server's status on any
/// other.
pub proof fn lemma_response_round_trip(status: u8, payload: Seq<u8>)
    requires
        payload.len() <= MAX_VALUE_LEN,
    ensures
        status == STATUS_SUCCESS ==> spec_decode_response(spec_response_frame(status, payload))
            == Ok::<Seq<u8>, VaultError>(payload),
        status != STATUS_SUCCESS ==> spec_decode_response(spec_response_frame(status, payload))
            == Err::<Seq<u8>, VaultError>(VaultError::Server(status as u16)),
{
    let data = spec_response_frame(status, payload);
    lemma_auto_spec_u32_to_from_le_bytes();
    assert(data.len() == 5 + payload.len());
    assert(data[0] == status);
    assert(data.subrange(1, 5) =~= spec_u32_to_le_bytes(payload.len() as u32));
    assert(spec_declared_len(data) == payload.len());
    if status == STATUS_SUCCESS {
        assert(data.subrange(5, 5 + payload.len() as int) =~= payload);
    }
}

/// A delivered sequence whose declared payload length exceeds the bytes
/// actually delivered decodes to a transport fault, never to a truncated
/// payload.
pub proof fn lemma_short_delivery_is_transport_fault(data: Seq<u8>)
    requires
        data.len() >= 5,
        data[0] == STATUS_SUCCESS,
        data.len() < 5 + spec_declared_len(data),
    ensures
        spec_decode_response(data) == Err::<Seq<u8>, VaultError>(VaultError::Transport),
{
}

/// The fields of a key-shaped frame read back exactly what was encoded.
pub proof fn lemma_key_frame_round_trip(tag: u8, key: Seq<u8>)
    requires
        key.len() <= MAX_KEY_LEN,
    ensures
        spec_key_frame(tag, key).len() == 3 + key.len(),
        spec_key_frame(tag, key)[0] == tag,
        spec_u16_from_le_bytes(spec_key_frame(tag, key).subrange(1, 3)) == key.len(),
        spec_key_frame(tag, key).subrange(3, 3 + key.len() as int) == key,
{
    let frame = spec_key_frame(tag, key);
    lemma_auto_spec_u16_to_from_le_bytes();
    assert(frame.subrange(1, 3) =~= spec_u16_to_le_bytes(key.len() as u16));
    assert(frame.subrange(3, 3 + key.len() as int) =~= key);
}

/// The fields of a Set frame read back exactly what was encoded: the key,
/// the value, and a zero flags byte between them.
pub proof fn lemma_set_frame_round_trip(key: Seq<u8>, value: Seq<u8>)
    requires
        key.len() <= MAX_KEY_LEN,
        value.len() <= MAX_VALUE_LEN,
    ensures
        spec_set_frame(key, value).len() == 8 + key.len() + value.len(),
        spec_set_frame(key, value)[0] == TAG_SET,
        spec_u16_from_le_bytes(spec_set_frame(key, value).subrange(1, 3)) == key.len(),
        spec_set_frame(key, value).subrange(3, 3 + key.len() as int) == key,
        spec_u32_from_le_bytes(
            spec_set_frame(key, value).subrange(3 + key.len() as int, 7 + key.len() as int),
        ) == value.len(),
        spec_set_frame(key, value)[7 + key.len() as int] == 0u8,
        spec_set_frame(key, value).subrange(
            8 + key.len() as int,
            spec_set_frame(key, value).len() as int,
        ) == value,
{
    let frame = spec_set_frame(key, value);
    lemma_auto_spec_u16_to_from_le_bytes();
    lemma_auto_spec_u32_to_from_le_bytes();
    assert(frame.subrange(1, 3) =~= spec_u16_to_le_bytes(key.len() as u16));
    assert(frame.subrange(3, 3 + key.len() as int) =~= key);
    assert(frame.subrange(3 + key.len() as int, 7 + key.len() as int) =~= spec_u32_to_le_bytes(
        value.len() as u32,
    ));
    assert(frame.subrange(8 + key.len() as int, frame.len() as int) =~= value);
}

} // verus!
