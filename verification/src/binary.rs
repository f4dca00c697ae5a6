//! The binary protocol client: request planning and response
//! interpretation for the length-prefixed framed protocol.
//!
//! Every logical operation runs over a fresh connection. The caller that
//! owns the connection asks this layer for a request plan (the optional
//! authentication frame followed by the operation frame), writes the
//! frames, and hands the delivered reply bytes back to the interpreter
//! methods here.

use vstd::prelude::*;
use vstd::string::StrSliceExecFns;
use vstd::utf8::encode_utf8;

use crate::error::VaultError;
use crate::frame::MAX_KEY_LEN;
use crate::frame::MAX_VALUE_LEN;
use crate::frame::STATUS_SUCCESS;
use crate::frame::TAG_AUTH;
use crate::frame::TAG_DELETE;
use crate::frame::TAG_GET;
use crate::frame::TAG_HEALTH;
use crate::frame::TAG_SET;
use crate::frame::decode_response;
use crate::frame::encode_auth_frame;
use crate::frame::encode_key_frame;
use crate::frame::encode_set_frame;
use crate::frame::lemma_key_frame_round_trip;
use crate::frame::lemma_response_round_trip;
use crate::frame::lemma_set_frame_round_trip;
use crate::frame::spec_auth_frame;
use crate::frame::spec_decode_response;
use crate::frame::spec_key_frame;
use crate::frame::spec_response_frame;
use crate::frame::spec_set_frame;

verus! {

/// What one logical operation sends on its fresh connection: the
/// authentication frame first when a credential is configured, then the
/// operation frame.
#[derive(Debug)]
pub struct RequestPlan {
    /// The authentication frame, present exactly when the client holds a
    /// credential. It is written before the operation frame, and its
    /// reply must decode successfully before the operation proceeds.
    pub auth_frame: Option<Vec<u8>>,
    /// The encoded operation frame.
    pub op_frame: Vec<u8>,
}

/// The authentication frame a credential configuration calls for: one
/// frame when a credential is held, none otherwise.
pub open spec fn spec_auth_plan(credential: Option<Seq<u8>>) -> Option<Seq<u8>> {
    match credential {
        Some(c) => Some(spec_auth_frame(c)),
        None => None,
    }
}

/// Whether a configured credential fits the two-byte length field of the
/// authentication frame.
pub open spec fn spec_credential_fits(credential: Option<Seq<u8>>) -> bool {
    match credential {
        Some(c) => c.len() <= MAX_KEY_LEN,
        None => true,
    }
}

/// Whether a tag names one of the four caller operations.
pub open spec fn spec_op_supported(op: u8) -> bool {
    op == TAG_GET || op == TAG_SET || op == TAG_DELETE || op == TAG_HEALTH
}

/// The request plan an operation produces, or the argument error that
/// rejects it before any I/O: only the four caller operations are
/// accepted (the authentication tag among the rejected ones), a Set
/// needs a value, and the key, value and credential must fit their
/// length fields.
pub open spec fn spec_execute_operation(
    credential: Option<Seq<u8>>,
    op: u8,
    key: Seq<u8>,
    value: Option<Seq<u8>>,
) -> Result<(Option<Seq<u8>>, Seq<u8>), VaultError> {
    if !spec_op_supported(op) {
        Err(VaultError::Argument)
    } else if key.len() > MAX_KEY_LEN {
        Err(VaultError::Argument)
    } else if !spec_credential_fits(credential) {
        Err(VaultError::Argument)
    } else if op == TAG_SET {
        match value {
            None => Err(VaultError::Argument),
            Some(v) => if v.len() > MAX_VALUE_LEN {
                Err(VaultError::Argument)
            } else {
                Ok((spec_auth_plan(credential), spec_set_frame(key, v)))
            },
        }
    } else {
        Ok((spec_auth_plan(credential), spec_key_frame(op, key)))
    }
}

/// The result a Get reads out of a decoded reply: a zero-length payload
/// is the absent signal, any other payload is the present value.
pub open spec fn spec_get_result(data: Seq<u8>) -> Result<Option<Seq<u8>>, VaultError> {
    match spec_decode_response(data) {
        Ok(payload) => if payload.len() == 0 {
            Ok(None)
        } else {
            Ok(Some(payload))
        },
        Err(e) => Err(e),
    }
}

/// The binary protocol client configuration: the address to connect to,
/// the optional credential presented per connection, and the fixed
/// read/write timeout set on every fresh connection.
pub struct MiniVaultBinary {
    address: String,
    api_key: Option<Vec<u8>>,
    timeout_secs: u64,
}

impl MiniVaultBinary {
    /// The configured address.
    pub closed spec fn spec_address(&self) -> Seq<char> {
        self.address@
    }

    /// The fixed per-connection timeout, in seconds.
    pub closed spec fn spec_timeout_secs(&self) -> u64 {
        self.timeout_secs
    }

    /// The configured credential, as the bytes presented on the wire.
    pub closed spec fn spec_credential(&self) -> Option<Seq<u8>> {
        match self.api_key {
            Some(ref k) => Some(k@),
            None => None,
        }
    }

    /// Builds a client for the given address, holding the credential (if
    /// any) for its whole lifetime, with the default five-second timeout.
    pub fn new(address: String, api_key: Option<String>) -> (client: Self)
        ensures
            client.spec_address() == address@,
            client.spec_timeout_secs() == 5,
            (match api_key {
                Some(k) => client.spec_credential() == Some(encode_utf8(k@)),
                None => client.spec_credential() is None,
            }),
    {
        let key_bytes: Option<Vec<u8>> = match api_key {
            Some(k) => Some(k.as_str().as_bytes_vec()),
            None => None,
        };
        MiniVaultBinary { address, api_key: key_bytes, timeout_secs: 5 }
    }

    /// The address the caller should open each fresh connection to.
    pub fn address(&self) -> (address: &String)
        ensures
            address@ == self.spec_address(),
    {
        &self.address
    }

    /// The read/write timeout, in seconds, to set on each connection.
    pub fn timeout_secs(&self) -> (secs: u64)
        ensures
            secs == self.spec_timeout_secs(),
    {
        self.timeout_secs
    }

    /// The authentication step: the frame to write on a fresh connection
    /// before the operation frame when a credential is configured, and
    /// nothing otherwise. A credential too long for its length field is
    /// rejected before any I/O.
    pub fn authenticate(&self) -> (r: Result<Option<Vec<u8>>, VaultError>)
        ensures
            (match r {
                Ok(f) => spec_credential_fits(self.spec_credential()) && f.deep_view()
                    == spec_auth_plan(self.spec_credential()),
                Err(e) => e == VaultError::Argument && !spec_credential_fits(
                    self.spec_credential(),
                ),
            }),
    {
        match &self.api_key {
            Some(credential) => {
                if credential.len() > MAX_KEY_LEN {
                    Err(VaultError::Argument)
                } else {
                    let frame = encode_auth_frame(credential.as_slice());
                    proof {
                        assert(frame.deep_view() =~= frame@);
                    }
                    Ok(Some(frame))
                }
            },
            None => Ok(None),
        }
    }

    /// Plans one logical operation over a fresh connection: the optional
    /// authentication frame and the operation frame, or the argument
    /// error that rejects the request before any I/O.
    pub fn execute_operation(
        &self,
        op: u8,
        key: &[u8],
        value: Option<&[u8]>,
    ) -> (r: Result<RequestPlan, VaultError>)
        ensures
            ({
                let expected = spec_execute_operation(
                    self.spec_credential(),
                    op,
                    key@,
                    (match value {
                        Some(v) => Some(v@),
                        None => None,
                    }),
                );
                match r {
                    Ok(plan) => expected == Ok::<(Option<Seq<u8>>, Seq<u8>), VaultError>(
                        (plan.auth_frame.deep_view(), plan.op_frame@),
                    ),
                    Err(e) => expected == Err::<(Option<Seq<u8>>, Seq<u8>), VaultError>(e),
                }
            }),
    {
        if !(op == TAG_GET || op == TAG_SET || op == TAG_DELETE || op == TAG_HEALTH) {
            return Err(VaultError::Argument);
        }
        if key.len() > MAX_KEY_LEN {
            return Err(VaultError::Argument);
        }
        let auth_frame = match self.authenticate() {
            Ok(f) => f,
            Err(e) => {
                return Err(e);
            },
        };
        let op_frame = if op == TAG_SET {
            match value {
                None => {
                    return Err(VaultError::Argument);
                },
                Some(v) => {
                    if v.len() > MAX_VALUE_LEN {
                        return Err(VaultError::Argument);
                    }
                    encode_set_frame(key, v)
                },
            }
        } else {
            encode_key_frame(op, key)
        };
        Ok(RequestPlan { auth_frame, op_frame })
    }

    /// Reads a Get reply: the absent signal on a zero-length payload, the
    /// payload itself otherwise, and the decoded fault on anything else.
    pub fn get(&self, delivered: &[u8]) -> (r: Result<Option<Vec<u8>>, VaultError>)
        ensures
            (match r {
                Ok(v) => spec_get_result(delivered@) == Ok::<Option<Seq<u8>>, VaultError>(
                    v.deep_view(),
                ),
                Err(e) => spec_get_result(delivered@) == Err::<Option<Seq<u8>>, VaultError>(e),
            }),
    {
        match decode_response(delivered) {
            Ok(payload) => {
                if payload.len() == 0 {
                    Ok(None)
                } else {
                    proof {
                        assert(payload.deep_view() =~= payload@);
                    }
                    Ok(Some(payload))
                }
            },
            Err(e) => Err(e),
        }
    }

    /// Reads a Set reply: success exactly when the reply frame decodes
    /// successfully; the payload is discarded.
    pub fn set(&self, delivered: &[u8]) -> (r: Result<(), VaultError>)
        ensures
            (match spec_decode_response(delivered@) {
                Ok(_) => r == Ok::<(), VaultError>(()),
                Err(e) => r == Err::<(), VaultError>(e),
            }),
    {
        match decode_response(delivered) {
            Ok(_) => Ok(()),
            Err(e) => Err(e),
        }
    }

    /// Reads a Delete reply: the same convention as a Set reply.
    pub fn delete(&self, delivered: &[u8]) -> (r: Result<(), VaultError>)
        ensures
            (match spec_decode_response(delivered@) {
                Ok(_) => r == Ok::<(), VaultError>(()),
                Err(e) => r == Err::<(), VaultError>(e),
            }),
    {
        match decode_response(delivered) {
            Ok(_) => Ok(()),
            Err(e) => Err(e),
        }
    }

    /// Whether a Get reply carries a present value: true exactly when the
    /// decoded payload is nonempty.
    pub fn key_exists(&self, delivered: &[u8]) -> (r: Result<bool, VaultError>)
        ensures
            (match spec_get_result(delivered@) {
                Ok(v) => r == Ok::<bool, VaultError>(v is Some),
                Err(e) => r == Err::<bool, VaultError>(e),
            }),
    {
        match self.get(delivered) {
            Ok(v) => Ok(v.is_some()),
            Err(e) => Err(e),
        }
    }

    /// Reads a Health reply: the raw payload of a successful reply, for
    /// the caller to decode as the JSON health snapshot.
    pub fn health(&self, delivered: &[u8]) -> (r: Result<Vec<u8>, VaultError>)
        ensures
            (match r {
                Ok(payload) => spec_decode_response(delivered@) == Ok::<Seq<u8>, VaultError>(
                    payload@,
                ),
                Err(e) => spec_decode_response(delivered@) == Err::<Seq<u8>, VaultError>(e),
            }),
    {
        decode_response(delivered)
    }

    /// The key of the Health operation: the ASCII bytes of "health".
    pub fn health_key() -> (key: Vec<u8>)
        ensures
            key@ == spec_health_key(),
    {
        let key: Vec<u8> = vec![104u8, 101u8, 97u8, 108u8, 116u8, 104u8];
        proof {
            assert(key@ =~= spec_health_key());
        }
        key
    }
}

/// The ASCII bytes of "health", the key a Health operation carries.
pub open spec fn spec_health_key() -> Seq<u8> {
    seq![104u8, 101u8, 97u8, 108u8, 116u8, 104u8]
}

/// A successful plan carries the authentication frame exactly when a
/// credential is configured — one frame, placed before the operation
/// frame — and that frame presents the credential bytes exactly.
pub proof fn lemma_auth_exactly_when_configured(
    credential: Option<Seq<u8>>,
    op: u8,
    key: Seq<u8>,
    value: Option<Seq<u8>>,
)
    ensures
        spec_execute_operation(credential, op, key, value) matches Ok(plan) ==> {
            &&& plan.0 is Some <==> credential is Some
            &&& (match credential {
                Some(c) => plan.0 == Some(spec_auth_frame(c)) && spec_auth_frame(c).subrange(
                    3,
                    3 + c.len() as int,
                ) == c,
                None => plan.0 is None,
            })
        },
{
    if spec_execute_operation(credential, op, key, value) is Ok {
        match credential {
            Some(c) => {
                lemma_key_frame_round_trip(TAG_AUTH, c);
            },
            None => {},
        }
    }
}

/// The client-side half of the Set/Get round trip: the Set frame carries
/// the value bytes exactly, and a success reply that carries those bytes
/// back reads as the same present value — except that a zero-length value
/// reads as the absent signal, which this transport cannot distinguish
/// from a missing key.
pub proof fn lemma_binary_round_trip(key: Seq<u8>, value: Seq<u8>)
    requires
        key.len() <= MAX_KEY_LEN,
        value.len() <= MAX_VALUE_LEN,
    ensures
        spec_set_frame(key, value).subrange(
            8 + key.len() as int,
            spec_set_frame(key, value).len() as int,
        ) == value,
        value.len() > 0 ==> spec_get_result(spec_response_frame(STATUS_SUCCESS, value))
            == Ok::<Option<Seq<u8>>, VaultError>(Some(value)),
        value.len() == 0 ==> spec_get_result(spec_response_frame(STATUS_SUCCESS, value))
            == Ok::<Option<Seq<u8>>, VaultError>(None),
{
    lemma_set_frame_round_trip(key, value);
    lemma_response_round_trip(STATUS_SUCCESS, value);
}

} // verus!
