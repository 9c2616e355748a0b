//! Wire protocol frames.
//!
//! Two channels exist. On the **control plane** (`meshly-core/control`) clients
//! register services, subscribe to them and send heartbeats. On the **data
//! plane** (`meshly-core/<service>` direct, `meshly-core/data` relayed) a stream
//! is authenticated and then carries raw bytes.
//!
//! Every framed message is `[tag: u8][len: u16 LE][payload: len bytes]`. Tags in
//! `0x01..=0x0F` belong to the data plane, tags in `0x10..=0x1F` to the control
//! plane.
use crate::json::{
    document_error, document_in, explain, flag_field, is_object_of, json_flag, json_number,
    json_optional_string, json_string, json_text, members_view, number_field, optional_text_field, read_document, text_field, values_of, write_document,
    JsonDoc, JsonDocValue, JsonField, JsonValue,
};
use crate::text::{decode_or_error, utf8_error_text, utf8_result, utf8_text};
use hmac::{Hmac, Mac};
use sha2::Sha256;
use subtle::ConstantTimeEq;
use vstd::prelude::*;
use vstd::string::StringExecFns;
use vstd::utf8::encode_utf8;

verus! {

/// Data-plane tag: client hello that opens a stream.
pub const DATA_AUTH_HELLO: u8 = 0x06;

/// Data-plane tag: server-issued nonce.
pub const DATA_AUTH_NONCE: u8 = 0x01;

/// Data-plane tag: client-issued HMAC proof.
pub const DATA_AUTH_PROOF: u8 = 0x02;

/// Data-plane tag: authentication accepted.
pub const DATA_AUTH_OK: u8 = 0x03;

/// Data-plane tag: authentication rejected.
pub const DATA_AUTH_ERR: u8 = 0x04;

/// Data-plane tag: open a relayed tunnel with target metadata.
pub const DATA_OPEN: u8 = 0x05;

/// Control-plane tag: client hello with group token.
pub const CONTROL_HELLO: u8 = 0x10;

/// Control-plane tag: server hello-ok with session id.
pub const CONTROL_HELLO_OK: u8 = 0x11;

/// Control-plane tag: register a service.
pub const CONTROL_REGISTER: u8 = 0x12;

/// Control-plane tag: registration accepted.
pub const CONTROL_REGISTER_OK: u8 = 0x13;

/// Control-plane tag: subscribe to a remote service.
pub const CONTROL_SUBSCRIBE: u8 = 0x14;

/// Control-plane tag: subscription resolved.
pub const CONTROL_SUBSCRIBE_OK: u8 = 0x15;

/// Control-plane tag: heartbeat (both directions).
pub const CONTROL_HEARTBEAT: u8 = 0x16;

/// Control-plane tag: error.
pub const CONTROL_ERROR: u8 = 0x1F;

/// Authentication accepted.
pub const AUTH_ERR_OK: u8 = 0;

/// Generic bad HMAC proof.
pub const AUTH_ERR_BAD_PROOF: u8 = 1;

/// Nonce missing or already consumed.
pub const AUTH_ERR_NO_NONCE: u8 = 2;

/// Provider timed out waiting for the proof.
pub const AUTH_ERR_TIMEOUT: u8 = 3;

/// Provider is shutting down.
pub const AUTH_ERR_SHUTDOWN: u8 = 4;

/// Service name in the proof does not match the bound ALPN.
pub const AUTH_ERR_WRONG_SERVICE: u8 = 5;

/// Maximum single-frame payload size: 32 KiB. Data-plane traffic after
/// authentication is raw bytes and not framed.
pub const MAX_FRAME_PAYLOAD: usize = 32 * 1024;

/// The longest string or record that fits a `u16` length.
pub const MAX_FIELD: usize = 65535;

/// Kinds of I/O failure that a frame can meet.
#[derive(Debug, Clone, Copy, PartialEq, Eq, Structural)]
pub enum IoErrorKind {
    /// The payload is not the JSON record that its tag calls for.
    InvalidData,
    /// The stream failed.
    Other,
}

/// Errors raised while reading or writing frames.
#[derive(Debug)]
pub enum FrameError {
    /// The stream failed, or a JSON payload could not be read: which of the two, and
    /// why.
    Io(IoErrorKind, String),
    /// The stream ended inside a frame header.
    ShortHeader,
    /// A payload has too few bytes: how many were wanted, and how many came.
    ShortPayload(usize, usize),
    /// A length and the maximum that it exceeds.
    TooLong(usize, usize),
    /// No frame has this tag.
    UnknownTag(u8),
    /// A text field is not valid UTF-8: what std says of it.
    Utf8(String),
    /// The peer refused the authentication: its code and its reason.
    AuthFailed(u8, String),
}

/// What a [`FrameError`] stands for.
pub enum FrameFault {
    Io(IoErrorKind, Seq<char>),
    ShortHeader,
    ShortPayload(usize, usize),
    TooLong(usize, usize),
    UnknownTag(u8),
    Utf8(Seq<char>),
    AuthFailed(u8, Seq<char>),
}

impl View for FrameError {
    type V = FrameFault;

    open spec fn view(&self) -> FrameFault {
        match self {
            FrameError::Io(kind, reason) => FrameFault::Io(*kind, reason@),
            FrameError::ShortHeader => FrameFault::ShortHeader,
            FrameError::ShortPayload(want, got) => FrameFault::ShortPayload(*want, *got),
            FrameError::TooLong(len, max) => FrameFault::TooLong(*len, *max),
            FrameError::UnknownTag(tag) => FrameFault::UnknownTag(*tag),
            FrameError::Utf8(cause) => FrameFault::Utf8(cause@),
            FrameError::AuthFailed(code, reason) => FrameFault::AuthFailed(*code, reason@),
        }
    }
}

/// AuthNonce (data plane): server to client, 32 random bytes.
#[derive(Debug, Clone)]
pub struct AuthNonce {
    pub nonce: [u8; 32],
}

/// AuthProof (data plane): client to server, a 32-byte HMAC-SHA256.
#[derive(Debug, Clone)]
pub struct AuthProof {
    pub mac: [u8; 32],
}

/// AuthOk (data plane): server to client, no payload.
#[derive(Debug, Clone, Copy)]
pub struct AuthOk;

/// AuthErr (data plane): server to client, a code and a UTF-8 reason.
#[derive(Debug, Clone)]
pub struct AuthErr {
    pub code: u8,
    pub reason: String,
}

/// Hello (control plane): client to server.
#[derive(Debug, Clone)]
pub struct Hello {
    pub group_token: String,
    pub client_info: String,
}

/// HelloOk (control plane): server to client.
#[derive(Debug, Clone)]
pub struct HelloOk {
    pub session_id: u64,
}

/// Register (control plane): client to server.
#[derive(Debug, Clone)]
pub struct Register {
    pub service: String,
}

/// RegisterOk (control plane): server to client.
#[derive(Debug, Clone)]
pub struct RegisterOk {
    pub service: String,
}

/// Subscribe (control plane): client to server.
#[derive(Debug, Clone)]
pub struct Subscribe {
    pub service: String,
}

/// SubscribeOk (control plane): server to client.
#[derive(Debug, Clone)]
pub struct SubscribeOk {
    pub service: String,
    pub provider_node_id: Option<String>,
    pub relay_required: bool,
}

/// All frames that can be exchanged.
#[derive(Debug, Clone)]
pub enum Frame {
    /// Data plane, client to server, the very first frame on a fresh stream: the
    /// provider reads it before it issues a nonce. It carries no payload and
    /// exists to push bytes onto the stream, so that the peer's accept returns.
    AuthHello,
    AuthNonce(AuthNonce),
    AuthProof(AuthProof),
    AuthOk(AuthOk),
    AuthErr(AuthErr),
    /// Data plane: targets a remote service through the relay. The relay checks
    /// `consumer_node_id`, the consumer's own endpoint id, against the peer that
    /// it is connected to.
    DataOpen {
        target_service: String,
        target_provider: String,
        consumer_node_id: String,
        proof: [u8; 32],
    },
    Hello(Hello),
    HelloOk(HelloOk),
    Register(Register),
    RegisterOk(RegisterOk),
    Subscribe(Subscribe),
    SubscribeOk(SubscribeOk),
    Heartbeat,
    ControlError { code: u16, reason: String },
}

/// What a [`Frame`] stands for.
#[allow(inconsistent_fields)]
pub enum FrameView {
    AuthHello,
    AuthNonce { nonce: Seq<u8> },
    AuthProof { mac: Seq<u8> },
    AuthOk,
    AuthErr { code: u8, reason: Seq<char> },
    DataOpen {
        target_service: Seq<char>,
        target_provider: Seq<char>,
        consumer_node_id: Seq<char>,
        proof: Seq<u8>,
    },
    Hello { group_token: Seq<char>, client_info: Seq<char> },
    HelloOk { session_id: u64 },
    Register { service: Seq<char> },
    RegisterOk { service: Seq<char> },
    Subscribe { service: Seq<char> },
    SubscribeOk {
        service: Seq<char>,
        provider_node_id: Option<Seq<char>>,
        relay_required: bool,
    },
    Heartbeat,
    ControlError { code: u16, reason: Seq<char> },
}

impl View for Frame {
    type V = FrameView;

    open spec fn view(&self) -> FrameView {
        match self {
            Frame::AuthHello => FrameView::AuthHello,
            Frame::AuthNonce(n) => FrameView::AuthNonce { nonce: n.nonce@ },
            Frame::AuthProof(p) => FrameView::AuthProof { mac: p.mac@ },
            Frame::AuthOk(_) => FrameView::AuthOk,
            Frame::AuthErr(e) => FrameView::AuthErr { code: e.code, reason: e.reason@ },
            Frame::DataOpen { target_service, target_provider, consumer_node_id, proof } => {
                FrameView::DataOpen {
                    target_service: target_service@,
                    target_provider: target_provider@,
                    consumer_node_id: consumer_node_id@,
                    proof: proof@,
                }
            },
            Frame::Hello(h) => FrameView::Hello {
                group_token: h.group_token@,
                client_info: h.client_info@,
            },
            Frame::HelloOk(h) => FrameView::HelloOk { session_id: h.session_id },
            Frame::Register(r) => FrameView::Register { service: r.service@ },
            Frame::RegisterOk(r) => FrameView::RegisterOk { service: r.service@ },
            Frame::Subscribe(s) => FrameView::Subscribe { service: s.service@ },
            Frame::SubscribeOk(s) => FrameView::SubscribeOk {
                service: s.service@,
                provider_node_id: crate::text::text_option(s.provider_node_id),
                relay_required: s.relay_required,
            },
            Frame::Heartbeat => FrameView::Heartbeat,
            Frame::ControlError { code, reason } => FrameView::ControlError {
                code: *code,
                reason: reason@,
            },
        }
    }
}

impl FrameView {
    /// Nonces and proofs are 32 bytes long.
    pub open spec fn well_formed(self) -> bool {
        match self {
            FrameView::AuthNonce { nonce } => nonce.len() == 32,
            FrameView::AuthProof { mac } => mac.len() == 32,
            FrameView::DataOpen { proof, .. } => proof.len() == 32,
            _ => true,
        }
    }

    /// The tag byte of a frame.
    pub open spec fn tag(self) -> u8 {
        match self {
            FrameView::AuthHello => DATA_AUTH_HELLO,
            FrameView::AuthNonce { .. } => DATA_AUTH_NONCE,
            FrameView::AuthProof { .. } => DATA_AUTH_PROOF,
            FrameView::AuthOk => DATA_AUTH_OK,
            FrameView::AuthErr { .. } => DATA_AUTH_ERR,
            FrameView::DataOpen { .. } => DATA_OPEN,
            FrameView::Hello { .. } => CONTROL_HELLO,
            FrameView::HelloOk { .. } => CONTROL_HELLO_OK,
            FrameView::Register { .. } => CONTROL_REGISTER,
            FrameView::RegisterOk { .. } => CONTROL_REGISTER_OK,
            FrameView::Subscribe { .. } => CONTROL_SUBSCRIBE,
            FrameView::SubscribeOk { .. } => CONTROL_SUBSCRIBE_OK,
            FrameView::Heartbeat => CONTROL_HEARTBEAT,
            FrameView::ControlError { .. } => CONTROL_ERROR,
        }
    }

    /// Whether a frame belongs to the data plane.
    pub open spec fn is_data_plane(self) -> bool {
        ||| self is AuthHello
        ||| self is AuthNonce
        ||| self is AuthProof
        ||| self is AuthOk
        ||| self is AuthErr
        ||| self is DataOpen
    }

    /// The members of the JSON record that a frame's payload is, for the frames
    /// whose payload is one.
    pub open spec fn record(self) -> Option<Seq<(Seq<char>, JsonValue)>> {
        match self {
            FrameView::Hello { group_token, client_info } => Some(
                seq![
                    ("group_token"@, JsonValue::Text(group_token)),
                    ("client_info"@, JsonValue::Text(client_info)),
                ],
            ),
            FrameView::HelloOk { session_id } => Some(
                seq![("session_id"@, JsonValue::Number(session_id))],
            ),
            FrameView::Register { service } => Some(seq![("service"@, JsonValue::Text(service))]),
            FrameView::RegisterOk { service } => Some(seq![("service"@, JsonValue::Text(service))]),
            FrameView::Subscribe { service } => Some(seq![("service"@, JsonValue::Text(service))]),
            FrameView::SubscribeOk { service, provider_node_id, relay_required } => Some(
                seq![
                    ("service"@, JsonValue::Text(service)),
                    (
                        "provider_node_id"@,
                        match provider_node_id {
                            Some(id) => JsonValue::Text(id),
                            None => JsonValue::Null,
                        },
                    ),
                    ("relay_required"@, JsonValue::Flag(relay_required)),
                ],
            ),
            _ => None,
        }
    }
}

/// The number that two bytes stand for, low byte first.
pub open spec fn le16(lo: u8, hi: u8) -> int {
    lo + 256 * hi
}

/// `n` as two bytes, low byte first.
pub open spec fn le16_bytes(n: nat) -> Seq<u8> {
    seq![(n % 256) as u8, (n / 256) as u8]
}

/// A text with its byte length in front.
pub open spec fn prefixed(text: Seq<char>) -> Seq<u8> {
    le16_bytes(encode_utf8(text).len()) + encode_utf8(text)
}

/// The payload of an open request, or the length of the first of its texts that
/// is too long.
pub open spec fn data_open_payload(
    service: Seq<char>,
    provider: Seq<char>,
    consumer: Seq<char>,
    proof: Seq<u8>,
) -> Result<Seq<u8>, FrameFault> {
    if encode_utf8(service).len() > MAX_FIELD {
        Err(FrameFault::TooLong(encode_utf8(service).len() as usize, MAX_FIELD))
    } else if encode_utf8(provider).len() > MAX_FIELD {
        Err(FrameFault::TooLong(encode_utf8(provider).len() as usize, MAX_FIELD))
    } else if encode_utf8(consumer).len() > MAX_FIELD {
        Err(FrameFault::TooLong(encode_utf8(consumer).len() as usize, MAX_FIELD))
    } else {
        Ok(prefixed(service) + prefixed(provider) + prefixed(consumer) + proof)
    }
}

/// The payload of a frame, without tag and length.
pub open spec fn frame_payload(f: FrameView) -> Result<Seq<u8>, FrameFault> {
    match f {
        FrameView::AuthHello => Ok(Seq::empty()),
        FrameView::AuthNonce { nonce } => Ok(nonce),
        FrameView::AuthProof { mac } => Ok(mac),
        FrameView::AuthOk => Ok(Seq::empty()),
        FrameView::AuthErr { code, reason } => Ok(seq![code] + encode_utf8(reason)),
        FrameView::DataOpen { target_service, target_provider, consumer_node_id, proof } => {
            data_open_payload(target_service, target_provider, consumer_node_id, proof)
        },
        FrameView::Heartbeat => Ok(Seq::empty()),
        FrameView::ControlError { code, reason } => Ok(
            le16_bytes(code as nat) + encode_utf8(reason),
        ),
        _ => {
            let text = json_text(f.record()->0);
            if text.len() > MAX_FIELD {
                Err(FrameFault::TooLong(text.len() as usize, MAX_FIELD))
            } else {
                Ok(text)
            }
        },
    }
}

/// Reads the payload of an open request: three texts, each behind its length,
/// and a proof. Bytes behind the proof are ignored.
pub open spec fn decode_data_open(p: Seq<u8>) -> Result<FrameView, FrameFault> {
    let short = |need: int| Err(FrameFault::ShortPayload(need as usize, p.len() as usize));
    if p.len() < 2 {
        short(2)
    } else {
        let service_end = 2 + le16(p[0], p[1]);
        if p.len() < service_end + 36 {
            short(service_end + 36)
        } else if utf8_text(p.subrange(2, service_end)) is None {
            Err(FrameFault::Utf8(utf8_error_text(p.subrange(2, service_end))))
        } else {
            let provider_end = service_end + 2 + le16(
                p[service_end],
                p[service_end + 1],
            );
            if p.len() < provider_end {
                short(provider_end + 34)
            } else if utf8_text(p.subrange(service_end + 2, provider_end)) is None {
                Err(FrameFault::Utf8(utf8_error_text(p.subrange(service_end + 2, provider_end))))
            } else if p.len() < provider_end + 2 {
                short(provider_end + 34)
            } else {
                let consumer_end = provider_end + 2 + le16(
                    p[provider_end],
                    p[provider_end + 1],
                );
                if p.len() < consumer_end + 32 {
                    short(consumer_end + 32)
                } else if utf8_text(p.subrange(provider_end + 2, consumer_end)) is None {
                    Err(FrameFault::Utf8(utf8_error_text(p.subrange(provider_end + 2, consumer_end))))
                } else {
                    Ok(
                        FrameView::DataOpen {
                            target_service: utf8_text(p.subrange(2, service_end))->0,
                            target_provider: utf8_text(
                                p.subrange(service_end + 2, provider_end),
                            )->0,
                            consumer_node_id: utf8_text(
                                p.subrange(provider_end + 2, consumer_end),
                            )->0,
                            proof: p.subrange(consumer_end, consumer_end + 32),
                        },
                    )
                }
            }
        }
    }
}

/// Reads the record of a control-plane frame out of a JSON document, or tells what
/// is wrong with the first of its fields that cannot be read.
pub open spec fn frame_of_document(tag: u8, doc: JsonDocValue) -> Result<FrameView, Seq<char>> {
    if tag == CONTROL_HELLO {
        match (
            text_field(doc, "group_token"@, 0, 2),
            text_field(doc, "client_info"@, 1, 2),
        ) {
            (Ok(group_token), Ok(client_info)) => Ok(FrameView::Hello { group_token, client_info }),
            (Err(e), _) => Err(e),
            (_, Err(e)) => Err(e),
        }
    } else if tag == CONTROL_HELLO_OK {
        match number_field(doc, "session_id"@, 0, 1) {
            Ok(session_id) => Ok(FrameView::HelloOk { session_id }),
            Err(e) => Err(e),
        }
    } else if tag == CONTROL_SUBSCRIBE_OK {
        match (
            text_field(doc, "service"@, 0, 3),
            optional_text_field(doc, "provider_node_id"@, 1, 3),
            flag_field(doc, "relay_required"@, 2, 3),
        ) {
            (Ok(service), Ok(provider_node_id), Ok(relay_required)) => Ok(
                FrameView::SubscribeOk { service, provider_node_id, relay_required },
            ),
            (Err(e), _, _) => Err(e),
            (_, Err(e), _) => Err(e),
            (_, _, Err(e)) => Err(e),
        }
    } else {
        match text_field(doc, "service"@, 0, 1) {
            Ok(service) => if tag == CONTROL_REGISTER {
                Ok(FrameView::Register { service })
            } else if tag == CONTROL_REGISTER_OK {
                Ok(FrameView::RegisterOk { service })
            } else {
                Ok(FrameView::Subscribe { service })
            },
            Err(e) => Err(e),
        }
    }
}

/// The fault of a JSON payload that cannot be read, for this reason.
pub open spec fn json_fault(reason: Seq<char>) -> FrameFault {
    FrameFault::Io(IoErrorKind::InvalidData, "json decode: "@ + reason)
}

/// Reads a JSON payload.
pub open spec fn decode_record(tag: u8, p: Seq<u8>) -> Result<FrameView, FrameFault> {
    match document_in(p) {
        Some(doc) => match frame_of_document(tag, doc) {
            Ok(f) => Ok(f),
            Err(reason) => Err(json_fault(reason)),
        },
        None => Err(json_fault(document_error(p))),
    }
}

/// Reads the payload `p` of a frame with this tag.
pub open spec fn decode_frame(tag: u8, p: Seq<u8>) -> Result<FrameView, FrameFault> {
    if tag == DATA_AUTH_HELLO {
        if p.len() == 0 {
            Ok(FrameView::AuthHello)
        } else {
            Err(FrameFault::ShortPayload(0, p.len() as usize))
        }
    } else if tag == DATA_AUTH_NONCE {
        if p.len() == 32 {
            Ok(FrameView::AuthNonce { nonce: p })
        } else {
            Err(FrameFault::ShortPayload(32, p.len() as usize))
        }
    } else if tag == DATA_AUTH_PROOF {
        if p.len() == 32 {
            Ok(FrameView::AuthProof { mac: p })
        } else {
            Err(FrameFault::ShortPayload(32, p.len() as usize))
        }
    } else if tag == DATA_AUTH_OK {
        Ok(FrameView::AuthOk)
    } else if tag == DATA_AUTH_ERR {
        if p.len() == 0 {
            Err(FrameFault::ShortPayload(1, 0))
        } else {
            match utf8_result(p.skip(1)) {
                Ok(reason) => Ok(FrameView::AuthErr { code: p[0], reason }),
                Err(cause) => Err(FrameFault::Utf8(cause)),
            }
        }
    } else if tag == DATA_OPEN {
        decode_data_open(p)
    } else if CONTROL_HELLO <= tag <= CONTROL_SUBSCRIBE_OK {
        decode_record(tag, p)
    } else if tag == CONTROL_HEARTBEAT {
        Ok(FrameView::Heartbeat)
    } else if tag == CONTROL_ERROR {
        if p.len() < 2 {
            Err(FrameFault::ShortPayload(2, p.len() as usize))
        } else {
            match utf8_result(p.skip(2)) {
                Ok(reason) => Ok(
                    FrameView::ControlError { code: le16(p[0], p[1]) as u16, reason },
                ),
                Err(cause) => Err(FrameFault::Utf8(cause)),
            }
        }
    } else {
        Err(FrameFault::UnknownTag(tag))
    }
}

/// A result that holds a frame, with the frame viewed.
pub open spec fn frame_result(r: Result<Frame, FrameError>) -> Result<FrameView, FrameFault> {
    match r {
        Ok(f) => Ok(f@),
        Err(e) => Err(e@),
    }
}

/// Copies 32 bytes out of a slice.
pub fn array32(bytes: &[u8], at: usize) -> (r: [u8; 32])
    requires
        at + 32 <= bytes@.len(),
    ensures
        r@ == bytes@.subrange(at as int, at + 32),
{
    let len: usize = bytes.len();
    let mut out: [u8; 32] = [0u8; 32];
    let mut i: usize = 0;
    while i < 32
        invariant
            i <= 32,
            at + 32 <= len == bytes@.len(),
            forall|j: int| 0 <= j < i ==> out@[j] == bytes@[at + j],
        decreases 32 - i,
    {
        out[i] = bytes[at + i];
        i = i + 1;
    }
    assert(out@ =~= bytes@.subrange(at as int, at + 32));
    out
}

/// The number in the two bytes at `at`, low byte first.
pub fn read_le16(bytes: &[u8], at: usize) -> (n: usize)
    requires
        at + 2 <= bytes@.len(),
    ensures
        n == le16(bytes@[at as int], bytes@[at + 1]),
        n <= MAX_FIELD,
{
    bytes[at] as usize + 256 * (bytes[at + 1] as usize)
}

/// The frame that a byte stream starts with, and how many bytes it takes, where
/// the stream ends behind `input`.
pub open spec fn read_frame(input: Seq<u8>) -> Result<(FrameView, int), FrameFault> {
    if input.len() < 3 {
        Err(FrameFault::ShortHeader)
    } else {
        let len = le16(input[1], input[2]);
        if len > MAX_FRAME_PAYLOAD {
            Err(FrameFault::TooLong(len as usize, MAX_FRAME_PAYLOAD))
        } else if input.len() < 3 + len {
            Err(FrameFault::ShortPayload(len as usize, (input.len() - 3) as usize))
        } else {
            match decode_frame(input[0], input.subrange(3, 3 + len)) {
                Ok(f) => Ok((f, 3 + len)),
                Err(e) => Err(e),
            }
        }
    }
}

/// The bytes of a frame on the wire, where its payload is within the limit.
pub open spec fn frame_wire(f: FrameView) -> Result<Seq<u8>, FrameFault> {
    match frame_payload(f) {
        Ok(p) => if p.len() > MAX_FRAME_PAYLOAD {
            Err(FrameFault::TooLong(p.len() as usize, MAX_FRAME_PAYLOAD))
        } else {
            Ok(seq![f.tag()] + le16_bytes(p.len()) + p)
        },
        Err(e) => Err(e),
    }
}

/// `serde_json` reads from the JSON text of `f` the record that was written.
pub open spec fn record_reads_back(f: FrameView) -> bool {
    f.record() matches Some(members) ==> is_object_of(json_text(members), members)
}

proof fn lemma_le16_round_trip(n: nat)
    requires
        n <= MAX_FIELD,
    ensures
        le16_bytes(n).len() == 2,
        le16(le16_bytes(n)[0], le16_bytes(n)[1]) == n,
{
}

/// A text that is written and read again is the same text.
proof fn lemma_utf8_round_trip(text: Seq<char>)
    ensures
        utf8_text(encode_utf8(text)) == Some(text),
{
    vstd::utf8::encode_utf8_valid_utf8(text);
    vstd::utf8::encode_utf8_decode_utf8(text);
}

/// The keys of a record differ.
proof fn lemma_record_keys_differ()
    ensures
        "group_token"@ != "client_info"@,
        "service"@ != "provider_node_id"@,
        "service"@ != "relay_required"@,
        "provider_node_id"@ != "relay_required"@,
{
    reveal_strlit("group_token");
    reveal_strlit("client_info");
    reveal_strlit("service");
    reveal_strlit("provider_node_id");
    reveal_strlit("relay_required");
    assert("group_token"@[0] != "client_info"@[0]);
    assert("service"@.len() != "provider_node_id"@.len());
    assert("service"@.len() != "relay_required"@.len());
    assert("provider_node_id"@.len() != "relay_required"@.len());
}

proof fn lemma_record_round_trip(f: FrameView)
    requires
        f.record() is Some,
        record_reads_back(f),
    ensures
        decode_record(f.tag(), json_text(f.record()->0)) == Ok::<FrameView, FrameFault>(f),
{
    lemma_record_keys_differ();
    reveal_with_fuel(values_of, 4);
    let members = f.record()->0;
    let doc = document_in(json_text(members))->0;
    let raw = doc->Object_0;
    assert(raw[0].0 == members[0].0);
    if members.len() >= 2 {
        assert(raw[1].0 == members[1].0);
        assert(raw.drop_last().last() == raw[members.len() - 2]);
    }
    if members.len() >= 3 {
        assert(raw[2].0 == members[2].0);
        assert(raw.drop_last().drop_last().last() == raw[0]);
    }
}

proof fn lemma_data_open_round_trip(f: FrameView)
    requires
        f is DataOpen,
        f.well_formed(),
        frame_payload(f) is Ok,
    ensures
        decode_data_open(frame_payload(f)->Ok_0) == Ok::<FrameView, FrameFault>(f),
{
    if let FrameView::DataOpen { target_service, target_provider, consumer_node_id, proof } = f {
        let a = encode_utf8(target_service);
        let b = encode_utf8(target_provider);
        let c = encode_utf8(consumer_node_id);
        lemma_le16_round_trip(a.len());
        lemma_le16_round_trip(b.len());
        lemma_le16_round_trip(c.len());
        lemma_utf8_round_trip(target_service);
        lemma_utf8_round_trip(target_provider);
        lemma_utf8_round_trip(consumer_node_id);
        let p = frame_payload(f)->Ok_0;
        let s: int = 2 + a.len() as int;
        let t: int = s + 2 + b.len();
        let u: int = t + 2 + c.len();
        assert(p[0] == le16_bytes(a.len())[0] && p[1] == le16_bytes(a.len())[1]);
        assert(p[s] == le16_bytes(b.len())[0] && p[s + 1] == le16_bytes(b.len())[1]);
        assert(p[t] == le16_bytes(c.len())[0] && p[t + 1] == le16_bytes(c.len())[1]);
        assert(p.subrange(2, s) =~= a);
        assert(p.subrange(s + 2, t) =~= b);
        assert(p.subrange(t + 2, u) =~= c);
        assert(p.subrange(u, u + 32) =~= proof);
    }
}

/// Decoding the payload that a frame encodes to gives the frame back.
pub proof fn law_payload_round_trip(f: FrameView)
    requires
        f.well_formed(),
        record_reads_back(f),
        frame_payload(f) is Ok,
    ensures
        decode_frame(f.tag(), frame_payload(f)->Ok_0) == Ok::<FrameView, FrameFault>(f),
{
    let p = frame_payload(f)->Ok_0;
    match f {
        FrameView::AuthErr { code, reason } => {
            lemma_utf8_round_trip(reason);
            assert(p.skip(1) =~= encode_utf8(reason));
        },
        FrameView::ControlError { code, reason } => {
            lemma_utf8_round_trip(reason);
            lemma_le16_round_trip(code as nat);
            assert(p.skip(2) =~= encode_utf8(reason));
        },
        FrameView::DataOpen { .. } => {
            lemma_data_open_round_trip(f);
        },
        _ => {
            if f.record() is Some {
                lemma_record_round_trip(f);
            }
        },
    }
}

/// A frame that was written to the wire is read back from it, with exactly its
/// own bytes taken, whatever follows.
pub proof fn law_wire_round_trip(f: FrameView, rest: Seq<u8>)
    requires
        f.well_formed(),
        record_reads_back(f),
        frame_wire(f) is Ok,
    ensures
        read_frame(frame_wire(f)->Ok_0 + rest) == Ok::<(FrameView, int), FrameFault>(
            (f, frame_wire(f)->Ok_0.len() as int),
        ),
{
    let p = frame_payload(f)->Ok_0;
    let all = frame_wire(f)->Ok_0 + rest;
    law_payload_round_trip(f);
    lemma_le16_round_trip(p.len());
    assert(all[1] == le16_bytes(p.len())[0]);
    assert(all[2] == le16_bytes(p.len())[1]);
    assert(all.subrange(3, 3 + p.len() as int) =~= p);
}

/// The tag of a frame names its plane: data-plane tags lie in `0x01..=0x0F`,
/// control-plane tags in `0x10..=0x1F`.
pub proof fn law_tag_ranges(f: FrameView)
    ensures
        f.is_data_plane() <==> 0x01 <= f.tag() <= 0x0F,
        !f.is_data_plane() <==> 0x10 <= f.tag() <= 0x1F,
{
}

/// A payload that decodes under a tag decodes to a frame with that tag.
pub proof fn law_decode_keeps_tag(tag: u8, p: Seq<u8>)
    ensures
        decode_frame(tag, p) matches Ok(f) ==> f.tag() == tag && f.well_formed(),
{
}

/// Parses the payload of an open request.
fn parse_data_open(payload: &[u8]) -> (r: Result<Frame, FrameError>)
    ensures
        frame_result(r) == decode_data_open(payload@),
{
    let len: usize = payload.len();
    if len < 2 {
        return Err(FrameError::ShortPayload(2, len));
    }
    let service_end: usize = 2 + read_le16(payload, 0);
    if len < service_end + 36 {
        return Err(FrameError::ShortPayload(service_end + 36, len));
    }
    let service = match decode_or_error(payload, 2, service_end) {
        Ok(s) => s,
        Err(cause) => {
            return Err(FrameError::Utf8(cause));
        },
    };
    let provider_end: usize = service_end + 2 + read_le16(payload, service_end);
    if len < provider_end {
        return Err(FrameError::ShortPayload(provider_end + 34, len));
    }
    let provider = match decode_or_error(payload, service_end + 2, provider_end) {
        Ok(s) => s,
        Err(cause) => {
            return Err(FrameError::Utf8(cause));
        },
    };
    if len - provider_end < 2 {
        return Err(FrameError::ShortPayload(provider_end + 34, len));
    }
    let consumer_end: usize = provider_end + 2 + read_le16(payload, provider_end);
    if len < consumer_end + 32 {
        return Err(FrameError::ShortPayload(consumer_end + 32, len));
    }
    match decode_or_error(payload, provider_end + 2, consumer_end) {
        Ok(consumer) => Ok(
            Frame::DataOpen {
                target_service: service,
                target_provider: provider,
                consumer_node_id: consumer,
                proof: array32(payload, consumer_end),
            },
        ),
        Err(cause) => Err(FrameError::Utf8(cause)),
    }
}

/// Parses the JSON payload of a control-plane frame.
fn parse_record(tag: u8, payload: &[u8]) -> (r: Result<Frame, FrameError>)
    requires
        CONTROL_HELLO <= tag <= CONTROL_SUBSCRIBE_OK,
    ensures
        frame_result(r) == decode_record(tag, payload@),
{
    let reason = match read_document(payload) {
        Some(doc) => match Frame::from_document(tag, &doc) {
            Ok(f) => {
                return Ok(f);
            },
            Err(reason) => reason,
        },
        None => explain(payload),
    };
    Err(FrameError::Io(IoErrorKind::InvalidData, "json decode: ".to_owned().concat(reason.as_str())))
}

proof fn lemma_record_is_writable(f: FrameView)
    requires
        f.record() is Some,
    ensures
        crate::json::distinct_keys(f.record()->0),
{
    lemma_record_keys_differ();
}

/// A result that holds bytes, with the bytes viewed.
pub open spec fn bytes_result(r: Result<Vec<u8>, FrameError>) -> Result<Seq<u8>, FrameFault> {
    match r {
        Ok(v) => Ok(v@),
        Err(e) => Err(e@),
    }
}

/// Appends `bytes` to `out`.
fn put_slice(out: &mut Vec<u8>, bytes: &[u8])
    ensures
        final(out)@ == old(out)@ + bytes@,
{
    out.extend_from_slice(bytes);
    assert(out@ =~= old(out)@ + bytes@);
}

/// Appends `n`, low byte first.
fn put_le16(out: &mut Vec<u8>, n: u16)
    ensures
        final(out)@ == old(out)@ + le16_bytes(n as nat),
{
    out.push((n % 256) as u8);
    out.push((n / 256) as u8);
    assert(out@ =~= old(out)@ + le16_bytes(n as nat));
}

/// Appends a text behind its byte length.
fn put_text(out: &mut Vec<u8>, text: &str) -> (r: Result<(), FrameError>)
    ensures
        match r {
            Ok(_) => encode_utf8(text@).len() <= MAX_FIELD && final(out)@ == old(out)@ + prefixed(
                text@,
            ),
            Err(e) => encode_utf8(text@).len() > MAX_FIELD && e@ == FrameFault::TooLong(
                encode_utf8(text@).len() as usize,
                MAX_FIELD,
            ),
        },
{
    let bytes: &[u8] = text.as_bytes();
    if bytes.len() > MAX_FIELD {
        return Err(FrameError::TooLong(bytes.len(), MAX_FIELD));
    }
    put_le16(out, bytes.len() as u16);
    put_slice(out, bytes);
    assert(out@ =~= old(out)@ + prefixed(text@));
    Ok(())
}

/// A JSON text as a payload, where its length fits.
pub fn record_payload(text: Vec<u8>) -> (r: Result<Vec<u8>, FrameError>)
    ensures
        match r {
            Ok(p) => text@.len() <= MAX_FIELD && p@ == text@,
            Err(e) => text@.len() > MAX_FIELD && e@ == FrameFault::TooLong(
                text@.len() as usize,
                MAX_FIELD,
            ),
        },
{
    if text.len() > MAX_FIELD {
        Err(FrameError::TooLong(text.len(), MAX_FIELD))
    } else {
        Ok(text)
    }
}

/// The payload length in a frame header, where it is within the limit.
pub fn payload_len(lo: u8, hi: u8) -> (r: Result<usize, FrameError>)
    ensures
        match r {
            Ok(len) => len == le16(lo, hi) && len <= MAX_FRAME_PAYLOAD,
            Err(e) => le16(lo, hi) > MAX_FRAME_PAYLOAD && e@ == FrameFault::TooLong(
                le16(lo, hi) as usize,
                MAX_FRAME_PAYLOAD,
            ),
        },
{
    let len: usize = lo as usize + 256 * (hi as usize);
    if len > MAX_FRAME_PAYLOAD {
        Err(FrameError::TooLong(len, MAX_FRAME_PAYLOAD))
    } else {
        Ok(len)
    }
}

/// The frame that a buffer starts with. The limit on payloads does not apply to
/// a buffer that is in memory already.
pub open spec fn frame_in_buffer(buf: Seq<u8>) -> Result<FrameView, FrameFault> {
    if buf.len() < 3 {
        Err(FrameFault::ShortHeader)
    } else {
        let len = le16(buf[1], buf[2]);
        if buf.len() < 3 + len {
            Err(FrameFault::ShortPayload(len as usize, (buf.len() - 3) as usize))
        } else {
            decode_frame(buf[0], buf.subrange(3, 3 + len))
        }
    }
}

/// Reads a single frame from an in-memory buffer.
pub fn decode_from_bytes(buf: &[u8]) -> (r: Result<Frame, FrameError>)
    ensures
        frame_result(r) == frame_in_buffer(buf@),
{
    if buf.len() < 3 {
        return Err(FrameError::ShortHeader);
    }
    let len: usize = read_le16(buf, 1);
    if buf.len() < 3 + len {
        return Err(FrameError::ShortPayload(len, buf.len() - 3));
    }
    Frame::decode(buf[0], vstd::slice::slice_subrange(buf, 3, 3 + len))
}

impl Frame {
    /// Returns the tag byte for this frame.
    pub fn tag(&self) -> (tag: u8)
        ensures
            tag == self@.tag(),
    {
        match self {
            Frame::AuthHello => DATA_AUTH_HELLO,
            Frame::AuthNonce(_) => DATA_AUTH_NONCE,
            Frame::AuthProof(_) => DATA_AUTH_PROOF,
            Frame::AuthOk(_) => DATA_AUTH_OK,
            Frame::AuthErr(_) => DATA_AUTH_ERR,
            Frame::DataOpen { .. } => DATA_OPEN,
            Frame::Hello(_) => CONTROL_HELLO,
            Frame::HelloOk(_) => CONTROL_HELLO_OK,
            Frame::Register(_) => CONTROL_REGISTER,
            Frame::RegisterOk(_) => CONTROL_REGISTER_OK,
            Frame::Subscribe(_) => CONTROL_SUBSCRIBE,
            Frame::SubscribeOk(_) => CONTROL_SUBSCRIBE_OK,
            Frame::Heartbeat => CONTROL_HEARTBEAT,
            Frame::ControlError { .. } => CONTROL_ERROR,
        }
    }

    /// Serialises this frame's payload, without tag and length. What it returns
    /// decodes to this frame again.
    pub fn encode_payload(&self) -> (r: Result<Vec<u8>, FrameError>)
        ensures
            bytes_result(r) == frame_payload(self@),
            record_reads_back(self@),
            r matches Ok(p) ==> decode_frame(self@.tag(), p@) == Ok::<FrameView, FrameFault>(self@),
    {
        let r = self.payload();
        proof {
            if r is Ok {
                law_payload_round_trip(self@);
            }
        }
        r
    }

    fn payload(&self) -> (r: Result<Vec<u8>, FrameError>)
        ensures
            bytes_result(r) == frame_payload(self@),
            record_reads_back(self@),
    {
        let mut out: Vec<u8> = Vec::new();
        match self {
            Frame::AuthHello => {},
            Frame::AuthNonce(a) => put_slice(&mut out, a.nonce.as_slice()),
            Frame::AuthProof(p) => put_slice(&mut out, p.mac.as_slice()),
            Frame::AuthOk(_) => {},
            Frame::AuthErr(e) => {
                out.push(e.code);
                put_slice(&mut out, e.reason.as_str().as_bytes());
                assert(out@ =~= seq![e.code] + encode_utf8(e.reason@));
            },
            Frame::DataOpen { target_service, target_provider, consumer_node_id, proof } => {
                put_text(&mut out, target_service.as_str())?;
                put_text(&mut out, target_provider.as_str())?;
                put_text(&mut out, consumer_node_id.as_str())?;
                put_slice(&mut out, proof.as_slice());
            },
            Frame::Heartbeat => {},
            Frame::ControlError { code, reason } => {
                put_le16(&mut out, *code);
                put_slice(&mut out, reason.as_str().as_bytes());
            },
            _ => {
                let members = self.members();
                proof {
                    lemma_record_is_writable(self@);
                }
                return record_payload(write_document(&members));
            },
        }
        Ok(out)
    }

    /// The members of this frame's JSON record.
    fn members(&self) -> (members: Vec<(String, JsonField)>)
        requires
            self@.record() is Some,
        ensures
            members_view(members@) == self@.record()->0,
    {
        let mut members: Vec<(String, JsonField)> = Vec::new();
        match self {
            Frame::Hello(h) => {
                members.push(("group_token".to_owned(), JsonField::Text(h.group_token.clone())));
                members.push(("client_info".to_owned(), JsonField::Text(h.client_info.clone())));
            },
            Frame::HelloOk(h) => {
                members.push(("session_id".to_owned(), JsonField::Number(h.session_id)));
            },
            Frame::Register(r) => {
                members.push(("service".to_owned(), JsonField::Text(r.service.clone())));
            },
            Frame::RegisterOk(r) => {
                members.push(("service".to_owned(), JsonField::Text(r.service.clone())));
            },
            Frame::Subscribe(s) => {
                members.push(("service".to_owned(), JsonField::Text(s.service.clone())));
            },
            Frame::SubscribeOk(s) => {
                let provider = match &s.provider_node_id {
                    Some(id) => JsonField::Text(id.clone()),
                    None => JsonField::Null,
                };
                members.push(("service".to_owned(), JsonField::Text(s.service.clone())));
                members.push(("provider_node_id".to_owned(), provider));
                members.push(("relay_required".to_owned(), JsonField::Flag(s.relay_required)));
            },
            _ => {},
        }
        assert(members_view(members@) =~= self@.record()->0);
        members
    }

    /// Appends this frame (tag, length, payload) to `out`. The bytes appended
    /// are read back as this frame.
    pub fn write_to(&self, out: &mut Vec<u8>) -> (r: Result<(), FrameError>)
        ensures
            r is Ok <==> frame_wire(self@) is Ok,
            r is Ok ==> final(out)@ == old(out)@ + frame_wire(self@)->Ok_0,
            r is Err ==> final(out)@ == old(out)@ && frame_wire(self@) == Err::<
                Seq<u8>,
                FrameFault,
            >(r->Err_0@),
            r is Ok ==> forall|rest: Seq<u8>| #[trigger]
                read_frame(frame_wire(self@)->Ok_0 + rest) == Ok::<(FrameView, int), FrameFault>(
                    (self@, frame_wire(self@)->Ok_0.len() as int),
                ),
    {
        let payload = match self.encode_payload() {
            Ok(p) => p,
            Err(e) => {
                return Err(e);
            },
        };
        if payload.len() > MAX_FRAME_PAYLOAD {
            return Err(FrameError::TooLong(payload.len(), MAX_FRAME_PAYLOAD));
        }
        out.push(self.tag());
        put_le16(out, payload.len() as u16);
        put_slice(out, payload.as_slice());
        proof {
            assert(out@ =~= old(out)@ + frame_wire(self@)->Ok_0);
            assert forall|rest: Seq<u8>| #[trigger]
                read_frame(frame_wire(self@)->Ok_0 + rest) == Ok::<(FrameView, int), FrameFault>(
                    (self@, frame_wire(self@)->Ok_0.len() as int),
                ) by {
                law_wire_round_trip(self@, rest);
            }
        }
        Ok(())
    }

    /// Reads one frame (tag, length, payload) from the front of a byte stream
    /// that ends behind `input`, and tells how many bytes it takes.
    pub fn read_from(input: &[u8]) -> (r: Result<(Frame, usize), FrameError>)
        ensures
            match r {
                Ok((f, taken)) => read_frame(input@) == Ok::<(FrameView, int), FrameFault>(
                    (f@, taken as int),
                ),
                Err(e) => read_frame(input@) == Err::<(FrameView, int), FrameFault>(e@),
            },
    {
        if input.len() < 3 {
            return Err(FrameError::ShortHeader);
        }
        let len: usize = payload_len(input[1], input[2])?;
        if input.len() < 3 + len {
            return Err(FrameError::ShortPayload(len, input.len() - 3));
        }
        match Self::decode(input[0], vstd::slice::slice_subrange(input, 3, 3 + len)) {
            Ok(f) => Ok((f, 3 + len)),
            Err(e) => Err(e),
        }
    }

    /// Reads the record of a control-plane frame out of a JSON document: every
    /// field of the record, and nothing of what else the document holds.
    pub fn from_document(tag: u8, doc: &JsonDoc) -> (r: Result<Frame, String>)
        requires
            CONTROL_HELLO <= tag <= CONTROL_SUBSCRIBE_OK,
        ensures
            match r {
                Ok(f) => frame_of_document(tag, doc@) == Ok::<FrameView, Seq<char>>(f@),
                Err(e) => frame_of_document(tag, doc@) == Err::<FrameView, Seq<char>>(e@),
            },
    {
        if tag == CONTROL_HELLO {
            match (doc.text_field("group_token", 0, 2), doc.text_field("client_info", 1, 2)) {
                (Ok(group_token), Ok(client_info)) => Ok(
                    Frame::Hello(Hello { group_token, client_info }),
                ),
                (Err(e), _) => Err(e),
                (_, Err(e)) => Err(e),
            }
        } else if tag == CONTROL_HELLO_OK {
            match doc.number_field("session_id", 0, 1) {
                Ok(session_id) => Ok(Frame::HelloOk(HelloOk { session_id })),
                Err(e) => Err(e),
            }
        } else if tag == CONTROL_SUBSCRIBE_OK {
            match (
                doc.text_field("service", 0, 3),
                doc.optional_text_field("provider_node_id", 1, 3),
                doc.flag_field("relay_required", 2, 3),
            ) {
                (Ok(service), Ok(provider_node_id), Ok(relay_required)) => Ok(
                    Frame::SubscribeOk(SubscribeOk { service, provider_node_id, relay_required }),
                ),
                (Err(e), _, _) => Err(e),
                (_, Err(e), _) => Err(e),
                (_, _, Err(e)) => Err(e),
            }
        } else {
            match doc.text_field("service", 0, 1) {
                Ok(service) => if tag == CONTROL_REGISTER {
                    Ok(Frame::Register(Register { service }))
                } else if tag == CONTROL_REGISTER_OK {
                    Ok(Frame::RegisterOk(RegisterOk { service }))
                } else {
                    Ok(Frame::Subscribe(Subscribe { service }))
                },
                Err(e) => Err(e),
            }
        }
    }

    /// Parses a frame from its tag and payload bytes.
    pub fn decode(tag: u8, payload: &[u8]) -> (r: Result<Frame, FrameError>)
        ensures
            frame_result(r) == decode_frame(tag, payload@),
    {
        let len: usize = payload.len();
        if tag == DATA_AUTH_HELLO {
            if len == 0 {
                Ok(Frame::AuthHello)
            } else {
                Err(FrameError::ShortPayload(0, len))
            }
        } else if tag == DATA_AUTH_NONCE {
            if len == 32 {
                let nonce = array32(payload, 0);
                assert(nonce@ =~= payload@);
                Ok(Frame::AuthNonce(AuthNonce { nonce }))
            } else {
                Err(FrameError::ShortPayload(32, len))
            }
        } else if tag == DATA_AUTH_PROOF {
            if len == 32 {
                let mac = array32(payload, 0);
                assert(mac@ =~= payload@);
                Ok(Frame::AuthProof(AuthProof { mac }))
            } else {
                Err(FrameError::ShortPayload(32, len))
            }
        } else if tag == DATA_AUTH_OK {
            Ok(Frame::AuthOk(AuthOk))
        } else if tag == DATA_AUTH_ERR {
            if len == 0 {
                return Err(FrameError::ShortPayload(1, 0));
            }
            assert(payload@.skip(1) =~= payload@.subrange(1, len as int));
            match decode_or_error(payload, 1, len) {
                Ok(reason) => Ok(Frame::AuthErr(AuthErr { code: payload[0], reason })),
                Err(cause) => Err(FrameError::Utf8(cause)),
            }
        } else if tag == DATA_OPEN {
            parse_data_open(payload)
        } else if CONTROL_HELLO <= tag && tag <= CONTROL_SUBSCRIBE_OK {
            parse_record(tag, payload)
        } else if tag == CONTROL_HEARTBEAT {
            Ok(Frame::Heartbeat)
        } else if tag == CONTROL_ERROR {
            if len < 2 {
                return Err(FrameError::ShortPayload(2, len));
            }
            assert(payload@.skip(2) =~= payload@.subrange(2, len as int));
            match decode_or_error(payload, 2, len) {
                Ok(reason) => Ok(
                    Frame::ControlError { code: read_le16(payload, 0) as u16, reason },
                ),
                Err(cause) => Err(FrameError::Utf8(cause)),
            }
        } else {
            Err(FrameError::UnknownTag(tag))
        }
    }
}

/// The HMAC-SHA256 of a message under a key, as the crates `hmac` and `sha2`
/// compute it.
pub uninterp spec fn hmac_sha256(key: Seq<u8>, message: Seq<u8>) -> Seq<u8>;

/// Calls `hmac::Hmac<sha2::Sha256>`: `new_from_slice` on the key, `update` on
/// each of the two parts, then `finalize`. The result depends on the key and on
/// the parts joined together alone. `new_from_slice` takes keys of any length,
/// so the `expect` never fires.
#[verifier::external_body]
fn hmac_of_parts(key: &[u8], first: &[u8], second: &[u8]) -> (mac: [u8; 32])
    ensures
        mac@ == hmac_sha256(key@, first@ + second@),
{
    let mut mac = <Hmac<Sha256> as Mac>::new_from_slice(key).expect("any key length");
    mac.update(first);
    mac.update(second);
    mac.finalize().into_bytes().into()
}

/// Calls `subtle::ConstantTimeEq::ct_eq` on two byte slices of one length: true
/// exactly where they hold the same bytes.
#[verifier::external_body]
fn constant_time_eq(a: &[u8; 32], b: &[u8; 32]) -> (equal: bool)
    ensures
        equal == (a@ == b@),
{
    bool::from(a.as_slice().ct_eq(b.as_slice()))
}

/// What a proof is computed over: the service name, then the nonce.
pub open spec fn proof_message(service: Seq<char>, nonce: Seq<u8>) -> Seq<u8> {
    encode_utf8(service) + nonce
}

/// The proof of possession of `secret` for one service and one nonce.
pub open spec fn proof_of(secret: Seq<u8>, service: Seq<char>, nonce: Seq<u8>) -> Seq<u8> {
    hmac_sha256(secret, proof_message(service, nonce))
}

/// Computes `HMAC_SHA256(shared_secret, service_name || nonce)`. The service
/// name is part of the message so that a proof for one service cannot be
/// replayed against another.
pub fn compute_proof(shared_secret: &[u8], service_name: &str, nonce: &[u8; 32]) -> (mac: [u8; 32])
    ensures
        mac@ == proof_of(shared_secret@, service_name@, nonce@),
{
    hmac_of_parts(shared_secret, service_name.as_bytes(), nonce.as_slice())
}

/// Verifies an HMAC proof in constant time: true exactly for the proof of this
/// secret, service and nonce.
pub fn verify_proof(
    shared_secret: &[u8],
    service_name: &str,
    nonce: &[u8; 32],
    proof: &[u8; 32],
) -> (accepted: bool)
    ensures
        accepted == (proof@ == proof_of(shared_secret@, service_name@, nonce@)),
{
    let expected = compute_proof(shared_secret, service_name, nonce);
    proof_matches(&expected, proof)
}

/// Whether a received proof is the expected one, compared in constant time.
pub fn proof_matches(expected: &[u8; 32], proof: &[u8; 32]) -> (accepted: bool)
    ensures
        accepted == (proof@ == expected@),
{
    constant_time_eq(expected, proof)
}

/// Two proofs are computed over the same message only where both the service
/// and the nonce are the same.
pub proof fn law_proof_message_binds_service(
    service: Seq<char>,
    nonce: Seq<u8>,
    other_service: Seq<char>,
    other_nonce: Seq<u8>,
)
    requires
        nonce.len() == 32,
        other_nonce.len() == 32,
        proof_message(service, nonce) == proof_message(other_service, other_nonce),
    ensures
        service == other_service,
        nonce == other_nonce,
{
    let a = encode_utf8(service);
    let b = encode_utf8(other_service);
    let m = proof_message(service, nonce);
    assert(a.len() + 32 == m.len());
    assert(b.len() + 32 == m.len());
    assert(a =~= m.take(a.len() as int));
    assert(b =~= m.take(a.len() as int));
    assert(nonce =~= m.skip(a.len() as int));
    assert(other_nonce =~= m.skip(a.len() as int));
    vstd::utf8::encode_utf8_decode_utf8(service);
    vstd::utf8::encode_utf8_decode_utf8(other_service);
}

/// A proof is the HMAC-SHA256, under the secret, of the service's name with the nonce
/// behind it.
pub proof fn law_proof_is_the_hmac(secret: Seq<u8>, service: Seq<char>, nonce: Seq<u8>)
    ensures
        proof_of(secret, service, nonce) == hmac_sha256(secret, encode_utf8(service) + nonce),
{
}

/// Every kind of frame has its tag on the wire.
pub proof fn law_tags_on_the_wire(f: FrameView)
    ensures
        f.tag() == match f {
            FrameView::AuthNonce { .. } => 0x01u8,
            FrameView::AuthProof { .. } => 0x02u8,
            FrameView::AuthOk => 0x03u8,
            FrameView::AuthErr { .. } => 0x04u8,
            FrameView::DataOpen { .. } => 0x05u8,
            FrameView::AuthHello => 0x06u8,
            FrameView::Hello { .. } => 0x10u8,
            FrameView::HelloOk { .. } => 0x11u8,
            FrameView::Register { .. } => 0x12u8,
            FrameView::RegisterOk { .. } => 0x13u8,
            FrameView::Subscribe { .. } => 0x14u8,
            FrameView::SubscribeOk { .. } => 0x15u8,
            FrameView::Heartbeat => 0x16u8,
            FrameView::ControlError { .. } => 0x1Fu8,
        },
{
}

/// On the wire a frame is its tag, the length of its payload with the low byte first,
/// and the payload; a frame whose payload is over 32 KiB is not written.
pub proof fn law_wire_layout(f: FrameView)
    ensures
        match frame_payload(f) {
            Ok(p) => if p.len() <= 32768 {
                &&& frame_wire(f) matches Ok(w)
                &&& w.len() == 3 + p.len()
                &&& w[0] == f.tag()
                &&& w[1] + 256 * w[2] == p.len()
                &&& w.skip(3) == p
            } else {
                frame_wire(f) is Err
            },
            Err(e) => frame_wire(f) == Err::<Seq<u8>, FrameFault>(e),
        },
{
    if let Ok(p) = frame_payload(f) {
        if p.len() <= 32768 {
            lemma_le16_round_trip(p.len());
            assert(frame_wire(f)->Ok_0.skip(3) =~= p);
        }
    }
}

/// The payloads of the binary frames: nonce and proof stand as they are, a refusal is
/// its code and its reason, an error its code with the low byte first and its reason,
/// and a routing request its three texts, each behind its length, and the proof.
pub proof fn law_payload_layout(f: FrameView)
    ensures
        match f {
            FrameView::AuthHello | FrameView::AuthOk | FrameView::Heartbeat => {
                frame_payload(f) matches Ok(p) && p.len() == 0
            },
            FrameView::AuthNonce { nonce } => frame_payload(f) == Ok::<Seq<u8>, FrameFault>(nonce),
            FrameView::AuthProof { mac } => frame_payload(f) == Ok::<Seq<u8>, FrameFault>(mac),
            FrameView::AuthErr { code, reason } => {
                &&& frame_payload(f) matches Ok(p)
                &&& p.len() > 0
                &&& p[0] == code
                &&& p.skip(1) == encode_utf8(reason)
            },
            FrameView::ControlError { code, reason } => {
                &&& frame_payload(f) matches Ok(p)
                &&& p.len() >= 2
                &&& p[0] + 256 * p[1] == code
                &&& p.skip(2) == encode_utf8(reason)
            },
            FrameView::DataOpen { target_service, target_provider, consumer_node_id, proof } => {
                let a = encode_utf8(target_service);
                let b = encode_utf8(target_provider);
                let c = encode_utf8(consumer_node_id);
                let s: int = 2 + a.len() as int;
                let t: int = s + 2 + b.len();
                let u: int = t + 2 + c.len();
                if a.len() <= 65535 && b.len() <= 65535 && c.len() <= 65535 {
                    &&& frame_payload(f) matches Ok(p)
                    &&& p.len() == u + proof.len()
                    &&& p[0] + 256 * p[1] == a.len()
                    &&& p.subrange(2, s) == a
                    &&& p[s] + 256 * p[s + 1] == b.len()
                    &&& p.subrange(s + 2, t) == b
                    &&& p[t] + 256 * p[t + 1] == c.len()
                    &&& p.subrange(t + 2, u) == c
                    &&& p.skip(u) == proof
                } else {
                    frame_payload(f) is Err
                }
            },
            _ => {
                let text = json_text(f.record()->0);
                if text.len() <= 65535 {
                    frame_payload(f) == Ok::<Seq<u8>, FrameFault>(text)
                } else {
                    frame_payload(f) is Err
                }
            },
        },
{
    match f {
        FrameView::AuthErr { code, reason } => {
            assert(frame_payload(f)->Ok_0.skip(1) =~= encode_utf8(reason));
        },
        FrameView::ControlError { code, reason } => {
            lemma_le16_round_trip(code as nat);
            assert(frame_payload(f)->Ok_0.skip(2) =~= encode_utf8(reason));
        },
        FrameView::DataOpen { target_service, target_provider, consumer_node_id, proof } => {
            let a = encode_utf8(target_service);
            let b = encode_utf8(target_provider);
            let c = encode_utf8(consumer_node_id);
            if a.len() <= 65535 && b.len() <= 65535 && c.len() <= 65535 {
                lemma_le16_round_trip(a.len());
                lemma_le16_round_trip(b.len());
                lemma_le16_round_trip(c.len());
                let p = frame_payload(f)->Ok_0;
                let s: int = 2 + a.len() as int;
                let t: int = s + 2 + b.len();
                let u: int = t + 2 + c.len();
                assert(p[0] == le16_bytes(a.len())[0] && p[1] == le16_bytes(a.len())[1]);
                assert(p[s] == le16_bytes(b.len())[0] && p[s + 1] == le16_bytes(b.len())[1]);
                assert(p[t] == le16_bytes(c.len())[0] && p[t + 1] == le16_bytes(c.len())[1]);
                assert(p.subrange(2, s) =~= a);
                assert(p.subrange(s + 2, t) =~= b);
                assert(p.subrange(t + 2, u) =~= c);
                assert(p.skip(u) =~= proof);
            }
        },
        _ => {},
    }
}

/// The members of the JSON records, by name.
pub proof fn law_record_members(f: FrameView)
    ensures
        match f {
            FrameView::Hello { group_token, client_info } => {
                &&& f.record() matches Some(m)
                &&& m.len() == 2
                &&& m[0] == ("group_token"@, JsonValue::Text(group_token))
                &&& m[1] == ("client_info"@, JsonValue::Text(client_info))
            },
            FrameView::HelloOk { session_id } => {
                &&& f.record() matches Some(m)
                &&& m.len() == 1
                &&& m[0] == ("session_id"@, JsonValue::Number(session_id))
            },
            FrameView::Register { service } | FrameView::RegisterOk { service }
            | FrameView::Subscribe { service } => {
                &&& f.record() matches Some(m)
                &&& m.len() == 1
                &&& m[0] == ("service"@, JsonValue::Text(service))
            },
            FrameView::SubscribeOk { service, provider_node_id, relay_required } => {
                &&& f.record() matches Some(m)
                &&& m.len() == 3
                &&& m[0] == ("service"@, JsonValue::Text(service))
                &&& m[1].0 == "provider_node_id"@
                &&& provider_node_id matches Some(id) ==> m[1].1 == JsonValue::Text(id)
                &&& provider_node_id is None ==> m[1].1 is Null
                &&& m[2] == ("relay_required"@, JsonValue::Flag(relay_required))
            },
            _ => f.record() is None,
        },
{
}

/// Bytes behind a frame do not matter, nor does what was announced beyond the limit:
/// a header of three bytes tells tag and length, a payload over 32 KiB is refused, one
/// that is cut off is reported with what came of it, and a whole one is decoded.
pub proof fn law_reading_follows_the_header(input: Seq<u8>)
    ensures
        input.len() < 3 ==> read_frame(input) == Err::<(FrameView, int), FrameFault>(
            FrameFault::ShortHeader,
        ),
        input.len() >= 3 ==> ({
            let len = input[1] + 256 * input[2];
            if len > 32768 {
                read_frame(input) == Err::<(FrameView, int), FrameFault>(
                    FrameFault::TooLong(len as usize, 32768),
                )
            } else if input.len() - 3 < len {
                read_frame(input) == Err::<(FrameView, int), FrameFault>(
                    FrameFault::ShortPayload(len as usize, (input.len() - 3) as usize),
                )
            } else {
                match decode_frame(input[0], input.subrange(3, 3 + len)) {
                    Ok(f) => read_frame(input) == Ok::<(FrameView, int), FrameFault>((f, 3 + len)),
                    Err(e) => read_frame(input) == Err::<(FrameView, int), FrameFault>(e),
                }
            }
        }),
        read_frame(input) matches Ok((f, taken)) ==> frame_in_buffer(input) == Ok::<
            FrameView,
            FrameFault,
        >(f) && 3 <= taken <= input.len(),
{
}

/// What a payload is decoded to: nonce and proof take exactly 32 bytes, a hello none, a
/// refusal a code and an error two bytes of code before its reason, which has to be
/// UTF-8; no other tag is known.
pub proof fn law_decoding_binary_payloads(tag: u8, p: Seq<u8>)
    ensures
        tag == 0x01 ==> match decode_frame(tag, p) {
            Ok(f) => p.len() == 32 && f == (FrameView::AuthNonce { nonce: p }),
            Err(e) => p.len() != 32 && e == FrameFault::ShortPayload(32, p.len() as usize),
        },
        tag == 0x02 ==> match decode_frame(tag, p) {
            Ok(f) => p.len() == 32 && f == (FrameView::AuthProof { mac: p }),
            Err(e) => p.len() != 32 && e == FrameFault::ShortPayload(32, p.len() as usize),
        },
        tag == 0x03 ==> decode_frame(tag, p) == Ok::<FrameView, FrameFault>(FrameView::AuthOk),
        tag == 0x04 ==> match decode_frame(tag, p) {
            Ok(f) => f matches FrameView::AuthErr { code, reason } && p.len() > 0 && code == p[0]
                && encode_utf8(reason) == p.skip(1),
            Err(e) => p.len() == 0 && e == FrameFault::ShortPayload(1, 0) || p.len() > 0
                && e is Utf8 && !vstd::utf8::valid_utf8(p.skip(1)),
        },
        tag == 0x06 ==> match decode_frame(tag, p) {
            Ok(f) => p.len() == 0 && f is AuthHello,
            Err(e) => p.len() > 0 && e == FrameFault::ShortPayload(0, p.len() as usize),
        },
        tag == 0x16 ==> decode_frame(tag, p) == Ok::<FrameView, FrameFault>(FrameView::Heartbeat),
        tag == 0x1F ==> match decode_frame(tag, p) {
            Ok(f) => f matches FrameView::ControlError { code, reason } && p.len() >= 2 && code
                == p[0] + 256 * p[1] && encode_utf8(reason) == p.skip(2),
            Err(e) => p.len() < 2 && e == FrameFault::ShortPayload(2, p.len() as usize) || p.len()
                >= 2 && e is Utf8 && !vstd::utf8::valid_utf8(p.skip(2)),
        },
        tag == 0 || 0x06 < tag < 0x10 || 0x16 < tag < 0x1F || tag > 0x1F ==> decode_frame(tag, p)
            == Err::<FrameView, FrameFault>(FrameFault::UnknownTag(tag)),
{
    if tag == 0x04 && p.len() > 0 && vstd::utf8::valid_utf8(p.skip(1)) {
        vstd::utf8::decode_utf8_encode_utf8(p.skip(1));
    }
    if tag == 0x1F && p.len() >= 2 && vstd::utf8::valid_utf8(p.skip(2)) {
        vstd::utf8::decode_utf8_encode_utf8(p.skip(2));
    }
}

/// A record is read where each of its fields stands in the document exactly once, with
/// a value of its type, whatever else the document holds; only the provider may be
/// missing. Nothing else is read.
pub proof fn law_records_are_read_by_name(members: Seq<(Seq<char>, Seq<u8>)>)
    ensures
        ({
            let doc = JsonDocValue::Object(members);
            let tokens = values_of(members, "group_token"@);
            let infos = values_of(members, "client_info"@);
            let ids = values_of(members, "session_id"@);
            let names = values_of(members, "service"@);
            let providers = values_of(members, "provider_node_id"@);
            let relays = values_of(members, "relay_required"@);
            &&& match frame_of_document(0x10, doc) {
                Ok(f) => f matches FrameView::Hello { group_token, client_info } && tokens.len()
                    == 1 && json_string(tokens[0]) == Ok::<Seq<char>, Seq<char>>(group_token)
                    && infos.len() == 1 && json_string(infos[0]) == Ok::<Seq<char>, Seq<char>>(
                    client_info,
                ),
                Err(_) => tokens.len() != 1 || infos.len() != 1 || json_string(tokens[0]) is Err
                    || json_string(infos[0]) is Err,
            }
            &&& match frame_of_document(0x11, doc) {
                Ok(f) => f matches FrameView::HelloOk { session_id } && ids.len() == 1
                    && json_number(ids[0]) == Ok::<u64, Seq<char>>(session_id),
                Err(_) => ids.len() != 1 || json_number(ids[0]) is Err,
            }
            &&& forall|tag: u8|
                0x12 <= tag <= 0x14 ==> match #[trigger] frame_of_document(tag, doc) {
                    Ok(f) => names.len() == 1 && json_string(names[0]) is Ok && {
                        let service = json_string(names[0])->Ok_0;
                        &&& tag == 0x12 ==> f == (FrameView::Register { service })
                        &&& tag == 0x13 ==> f == (FrameView::RegisterOk { service })
                        &&& tag == 0x14 ==> f == (FrameView::Subscribe { service })
                    },
                    Err(_) => names.len() != 1 || json_string(names[0]) is Err,
                }
            &&& match frame_of_document(0x15, doc) {
                Ok(f) => {
                    &&& f matches FrameView::SubscribeOk {
                        service,
                        provider_node_id,
                        relay_required,
                    }
                    &&& names.len() == 1
                    &&& json_string(names[0]) == Ok::<Seq<char>, Seq<char>>(service)
                    &&& relays.len() == 1
                    &&& json_flag(relays[0]) == Ok::<bool, Seq<char>>(relay_required)
                    &&& providers.len() == 0 ==> provider_node_id is None
                    &&& providers.len() == 1 ==> json_optional_string(providers[0]) == Ok::<
                        Option<Seq<char>>,
                        Seq<char>,
                    >(provider_node_id)
                    &&& providers.len() <= 1
                },
                Err(_) => names.len() != 1 || json_string(names[0]) is Err || relays.len() != 1
                    || json_flag(relays[0]) is Err || providers.len() > 1 || (providers.len() == 1
                    && json_optional_string(providers[0]) is Err),
            }
        }),
{
}

/// An open request that is read holds its three texts, each behind its length with the
/// low byte first, and the proof behind them.
pub proof fn law_open_request_is_read(p: Seq<u8>)
    ensures
        decode_frame(0x05, p) matches Ok(f) ==> {
            &&& f matches FrameView::DataOpen {
                target_service,
                target_provider,
                consumer_node_id,
                proof,
            }
            &&& {
                let a = encode_utf8(target_service);
                let b = encode_utf8(target_provider);
                let c = encode_utf8(consumer_node_id);
                let s: int = 2 + a.len() as int;
                let t: int = s + 2 + b.len();
                let u: int = t + 2 + c.len();
                &&& p.len() >= u + 32
                &&& p[0] + 256 * p[1] == a.len()
                &&& p.subrange(2, s) == a
                &&& p[s] + 256 * p[s + 1] == b.len()
                &&& p.subrange(s + 2, t) == b
                &&& p[t] + 256 * p[t + 1] == c.len()
                &&& p.subrange(t + 2, u) == c
                &&& p.subrange(u, u + 32) == proof
            }
        },
        p.len() < 2 ==> decode_frame(0x05, p) == Err::<FrameView, FrameFault>(
            FrameFault::ShortPayload(2, p.len() as usize),
        ),
        p.len() < 38 ==> decode_frame(0x05, p) is Err,
{
    if p.len() >= 2 {
        let s: int = 2 + p[0] + 256 * p[1];
        if p.len() >= s + 36 && utf8_text(p.subrange(2, s)) is Some {
            vstd::utf8::decode_utf8_encode_utf8(p.subrange(2, s));
            let t: int = s + 2 + p[s] + 256 * p[s + 1];
            if p.len() >= t + 2 && utf8_text(p.subrange(s + 2, t)) is Some {
                vstd::utf8::decode_utf8_encode_utf8(p.subrange(s + 2, t));
                let u: int = t + 2 + p[t] + 256 * p[t + 1];
                if p.len() >= u + 32 && utf8_text(p.subrange(t + 2, u)) is Some {
                    vstd::utf8::decode_utf8_encode_utf8(p.subrange(t + 2, u));
                }
            }
        }
    }
}

/// The payload of a record is read as JSON: a document gives the record that it holds,
/// and what is no document, or does not hold the record, is reported as such.
pub proof fn law_records_are_json_documents(tag: u8, p: Seq<u8>)
    requires
        0x10 <= tag <= 0x15,
    ensures
        match document_in(p) {
            Some(doc) => match frame_of_document(tag, doc) {
                Ok(f) => decode_frame(tag, p) == Ok::<FrameView, FrameFault>(f),
                Err(reason) => decode_frame(tag, p) == Err::<FrameView, FrameFault>(
                    FrameFault::Io(IoErrorKind::InvalidData, "json decode: "@ + reason),
                ),
            },
            None => decode_frame(tag, p) matches Err(FrameFault::Io(
                IoErrorKind::InvalidData,
                _,
            )),
        },
{
}

/// A record may also come as an array of its fields in order; an array of another
/// length is none.
pub proof fn law_records_are_read_by_position(items: Seq<Seq<u8>>)
    ensures
        ({
            let doc = JsonDocValue::Array(items);
            &&& match frame_of_document(0x10, doc) {
                Ok(f) => f matches FrameView::Hello { group_token, client_info } && items.len() == 2
                    && json_string(items[0]) == Ok::<Seq<char>, Seq<char>>(group_token)
                    && json_string(items[1]) == Ok::<Seq<char>, Seq<char>>(client_info),
                Err(_) => items.len() != 2 || json_string(items[0]) is Err || json_string(
                    items[1],
                ) is Err,
            }
            &&& match frame_of_document(0x11, doc) {
                Ok(f) => f matches FrameView::HelloOk { session_id } && items.len() == 1
                    && json_number(items[0]) == Ok::<u64, Seq<char>>(session_id),
                Err(_) => items.len() != 1 || json_number(items[0]) is Err,
            }
            &&& forall|tag: u8|
                0x12 <= tag <= 0x14 ==> match #[trigger] frame_of_document(tag, doc) {
                    Ok(f) => items.len() == 1 && json_string(items[0]) is Ok && f.tag() == tag,
                    Err(_) => items.len() != 1 || json_string(items[0]) is Err,
                }
            &&& match frame_of_document(0x15, doc) {
                Ok(f) => {
                    &&& f matches FrameView::SubscribeOk {
                        service,
                        provider_node_id,
                        relay_required,
                    }
                    &&& items.len() == 3
                    &&& json_string(items[0]) == Ok::<Seq<char>, Seq<char>>(service)
                    &&& json_optional_string(items[1]) == Ok::<Option<Seq<char>>, Seq<char>>(
                        provider_node_id,
                    )
                    &&& json_flag(items[2]) == Ok::<bool, Seq<char>>(relay_required)
                },
                Err(_) => items.len() != 3 || json_string(items[0]) is Err || json_optional_string(
                    items[1],
                ) is Err || json_flag(items[2]) is Err,
            }
        }),
{
}

/// A buffer is read like a stream, but for the limit on payloads: a header of three
/// bytes tells tag and length, and what follows the payload does not matter.
pub proof fn law_buffers_are_read_by_the_header(buf: Seq<u8>)
    ensures
        buf.len() < 3 ==> frame_in_buffer(buf) == Err::<FrameView, FrameFault>(
            FrameFault::ShortHeader,
        ),
        buf.len() >= 3 ==> ({
            let len = buf[1] + 256 * buf[2];
            if buf.len() - 3 < len {
                frame_in_buffer(buf) == Err::<FrameView, FrameFault>(
                    FrameFault::ShortPayload(len as usize, (buf.len() - 3) as usize),
                )
            } else {
                frame_in_buffer(buf) == decode_frame(buf[0], buf.subrange(3, 3 + len))
            }
        }),
{
}

} // verus!
