//! Frames and frame errors as text, for messages and logs.
use crate::protocol::{Frame, FrameError, FrameFault, FrameView};
use crate::text::{decimal, decimal_text, quote, quoted};
use vstd::prelude::*;
use vstd::string::StringExecFns;

verus! {

/// Numbers in decimal, with a comma between each two.
pub open spec fn joined(bytes: Seq<u8>) -> Seq<char>
    decreases bytes.len(),
{
    if bytes.len() == 0 {
        Seq::empty()
    } else if bytes.len() == 1 {
        decimal(bytes[0] as nat)
    } else {
        joined(bytes.drop_last()) + ", "@ + decimal(bytes.last() as nat)
    }
}

/// Bytes as a list in square brackets.
pub open spec fn byte_list(bytes: Seq<u8>) -> Seq<char> {
    "["@ + joined(bytes) + "]"@
}

/// `true` or `false`.
pub open spec fn flag_text(b: bool) -> Seq<char> {
    if b {
        "true"@
    } else {
        "false"@
    }
}

/// A frame with its name and its fields.
pub open spec fn frame_text(f: FrameView) -> Seq<char> {
    match f {
        FrameView::AuthHello => "AuthHello"@,
        FrameView::AuthNonce { nonce } => "AuthNonce(AuthNonce { nonce: "@ + byte_list(nonce)
            + " })"@,
        FrameView::AuthProof { mac } => "AuthProof(AuthProof { mac: "@ + byte_list(mac) + " })"@,
        FrameView::AuthOk => "AuthOk(AuthOk)"@,
        FrameView::AuthErr { code, reason } => "AuthErr(AuthErr { code: "@ + decimal(code as nat)
            + ", reason: "@ + quoted(reason) + " })"@,
        FrameView::DataOpen { target_service, target_provider, consumer_node_id, proof } =>
            "DataOpen { target_service: "@ + quoted(target_service) + ", target_provider: "@
                + quoted(target_provider) + ", consumer_node_id: "@ + quoted(consumer_node_id)
                + ", proof: "@ + byte_list(proof) + " }"@,
        FrameView::Hello { group_token, client_info } => "Hello(Hello { group_token: "@ + quoted(
            group_token,
        ) + ", client_info: "@ + quoted(client_info) + " })"@,
        FrameView::HelloOk { session_id } => "HelloOk(HelloOk { session_id: "@ + decimal(
            session_id as nat,
        ) + " })"@,
        FrameView::Register { service } => "Register(Register { service: "@ + quoted(service)
            + " })"@,
        FrameView::RegisterOk { service } => "RegisterOk(RegisterOk { service: "@ + quoted(service)
            + " })"@,
        FrameView::Subscribe { service } => "Subscribe(Subscribe { service: "@ + quoted(service)
            + " })"@,
        FrameView::SubscribeOk { service, provider_node_id, relay_required } =>
            "SubscribeOk(SubscribeOk { service: "@ + quoted(service) + ", provider_node_id: "@ + (
            match provider_node_id {
                Some(id) => "Some("@ + quoted(id) + ")"@,
                None => "None"@,
            }) + ", relay_required: "@ + flag_text(relay_required) + " })"@,
        FrameView::Heartbeat => "Heartbeat"@,
        FrameView::ControlError { code, reason } => "ControlError { code: "@ + decimal(code as nat)
            + ", reason: "@ + quoted(reason) + " }"@,
    }
}

/// Writes bytes as a list.
fn byte_list_text(bytes: &[u8]) -> (text: String)
    ensures
        text@ == byte_list(bytes@),
{
    let mut text: String = String::new();
    let mut i: usize = 0;
    assert(bytes@.take(0) =~= Seq::empty());
    while i < bytes.len()
        invariant
            i <= bytes@.len(),
            text@ == joined(bytes@.take(i as int)),
        decreases bytes.len() - i,
    {
        let ghost before = text@;
        let ghost next = bytes@.take(i + 1);
        assert(next.drop_last() =~= bytes@.take(i as int));
        if i > 0 {
            text.append(", ");
        }
        text.append(decimal_text(bytes[i] as u64).as_str());
        proof {
            if i == 0 {
                assert(text@ =~= decimal(bytes@[0] as nat));
            }
        }
        i = i + 1;
    }
    assert(bytes@.take(bytes@.len() as int) =~= bytes@);
    "[".to_owned().concat(text.as_str()).concat("]")
}

impl Frame {
    /// This frame with its name and its fields, as text.
    pub fn describe(&self) -> (text: String)
        ensures
            text@ == frame_text(self@),
    {
        match self {
            Frame::AuthHello => "AuthHello".to_owned(),
            Frame::AuthNonce(n) => "AuthNonce(AuthNonce { nonce: ".to_owned().concat(
                byte_list_text(n.nonce.as_slice()).as_str(),
            ).concat(" })"),
            Frame::AuthProof(p) => "AuthProof(AuthProof { mac: ".to_owned().concat(
                byte_list_text(p.mac.as_slice()).as_str(),
            ).concat(" })"),
            Frame::AuthOk(_) => "AuthOk(AuthOk)".to_owned(),
            Frame::AuthErr(e) => "AuthErr(AuthErr { code: ".to_owned().concat(
                decimal_text(e.code as u64).as_str(),
            ).concat(", reason: ").concat(quote(e.reason.as_str()).as_str()).concat(" })"),
            Frame::DataOpen { target_service, target_provider, consumer_node_id, proof } => {
                "DataOpen { target_service: ".to_owned().concat(
                    quote(target_service.as_str()).as_str(),
                ).concat(", target_provider: ").concat(
                    quote(target_provider.as_str()).as_str(),
                ).concat(", consumer_node_id: ").concat(
                    quote(consumer_node_id.as_str()).as_str(),
                ).concat(", proof: ").concat(byte_list_text(proof.as_slice()).as_str()).concat(" }")
            },
            Frame::Hello(h) => "Hello(Hello { group_token: ".to_owned().concat(
                quote(h.group_token.as_str()).as_str(),
            ).concat(", client_info: ").concat(quote(h.client_info.as_str()).as_str()).concat(
                " })",
            ),
            Frame::HelloOk(h) => "HelloOk(HelloOk { session_id: ".to_owned().concat(
                decimal_text(h.session_id).as_str(),
            ).concat(" })"),
            Frame::Register(r) => "Register(Register { service: ".to_owned().concat(
                quote(r.service.as_str()).as_str(),
            ).concat(" })"),
            Frame::RegisterOk(r) => "RegisterOk(RegisterOk { service: ".to_owned().concat(
                quote(r.service.as_str()).as_str(),
            ).concat(" })"),
            Frame::Subscribe(s) => "Subscribe(Subscribe { service: ".to_owned().concat(
                quote(s.service.as_str()).as_str(),
            ).concat(" })"),
            Frame::SubscribeOk(s) => {
                let provider = match &s.provider_node_id {
                    Some(id) => "Some(".to_owned().concat(quote(id.as_str()).as_str()).concat(")"),
                    None => "None".to_owned(),
                };
                let required = if s.relay_required {
                    "true"
                } else {
                    "false"
                };
                "SubscribeOk(SubscribeOk { service: ".to_owned().concat(
                    quote(s.service.as_str()).as_str(),
                ).concat(", provider_node_id: ").concat(provider.as_str()).concat(
                    ", relay_required: ",
                ).concat(required).concat(" })")
            },
            Frame::Heartbeat => "Heartbeat".to_owned(),
            Frame::ControlError { code, reason } => "ControlError { code: ".to_owned().concat(
                decimal_text(*code as u64).as_str(),
            ).concat(", reason: ").concat(quote(reason.as_str()).as_str()).concat(" }"),
        }
    }
}

/// What a frame error is reported as.
pub open spec fn frame_error_text(e: FrameFault) -> Seq<char> {
    match e {
        FrameFault::Io(_, reason) => "io error: "@ + reason,
        FrameFault::ShortHeader => "unexpected EOF reading frame header"@,
        FrameFault::ShortPayload(want, got) => "unexpected EOF reading frame payload (wanted "@
            + decimal(want as nat) + " bytes, got "@ + decimal(got as nat) + ")"@,
        FrameFault::TooLong(len, max) => "frame length "@ + decimal(len as nat)
            + " exceeds maximum "@ + decimal(max as nat),
        FrameFault::UnknownTag(tag) => "unknown frame tag: "@ + decimal(tag as nat),
        FrameFault::Utf8(cause) => "invalid UTF-8 in frame: "@ + cause,
        FrameFault::AuthFailed(code, reason) => "authentication failed: code="@ + decimal(
            code as nat,
        ) + ", reason="@ + reason,
    }
}

impl FrameError {
    /// The message for the user.
    pub fn message(&self) -> (text: String)
        ensures
            text@ == frame_error_text(self@),
    {
        match self {
            FrameError::Io(_, reason) => "io error: ".to_owned().concat(reason.as_str()),
            FrameError::ShortHeader => "unexpected EOF reading frame header".to_owned(),
            FrameError::ShortPayload(
                want,
                got,
            ) => "unexpected EOF reading frame payload (wanted ".to_owned().concat(
                decimal_text(*want as u64).as_str(),
            ).concat(" bytes, got ").concat(decimal_text(*got as u64).as_str()).concat(")"),
            FrameError::TooLong(len, max) => "frame length ".to_owned().concat(
                decimal_text(*len as u64).as_str(),
            ).concat(" exceeds maximum ").concat(decimal_text(*max as u64).as_str()),
            FrameError::UnknownTag(tag) => "unknown frame tag: ".to_owned().concat(
                decimal_text(*tag as u64).as_str(),
            ),
            FrameError::Utf8(cause) => "invalid UTF-8 in frame: ".to_owned().concat(
                cause.as_str(),
            ),
            FrameError::AuthFailed(code, reason) => "authentication failed: code=".to_owned().concat(
                decimal_text(*code as u64).as_str(),
            ).concat(", reason=").concat(reason.as_str()),
        }
    }
}

/// The message of a frame error holds what is known of it: the lengths, the tag, the
/// code and the reason.
pub proof fn law_frame_error_names_the_fault(e: FrameFault)
    ensures
        match e {
            FrameFault::Io(_, reason) => crate::text::contains_seq(frame_error_text(e), reason),
            FrameFault::ShortHeader => true,
            FrameFault::ShortPayload(want, got) => crate::text::contains_seq(
                frame_error_text(e),
                "wanted "@ + decimal(want as nat) + " bytes, got "@ + decimal(got as nat),
            ),
            FrameFault::TooLong(len, max) => crate::text::contains_seq(
                frame_error_text(e),
                decimal(len as nat) + " exceeds maximum "@ + decimal(max as nat),
            ),
            FrameFault::UnknownTag(tag) => crate::text::contains_seq(
                frame_error_text(e),
                decimal(tag as nat),
            ),
            FrameFault::Utf8(cause) => crate::text::contains_seq(frame_error_text(e), cause),
            FrameFault::AuthFailed(code, reason) => crate::text::contains_seq(
                frame_error_text(e),
                decimal(code as nat) + ", reason="@ + reason,
            ),
        },
{
    match e {
        FrameFault::Io(_, reason) => {
            crate::text::lemma_middle_is_contained("io error: "@, reason, ""@);
        },
        FrameFault::ShortHeader => {},
        FrameFault::ShortPayload(want, got) => {
            let lead = "unexpected EOF reading frame payload ("@;
            let whole = "unexpected EOF reading frame payload (wanted "@;
            reveal_strlit("unexpected EOF reading frame payload (");
            reveal_strlit("unexpected EOF reading frame payload (wanted ");
            reveal_strlit("wanted ");
            assert(whole =~= lead + "wanted "@);
            let mid = "wanted "@ + decimal(want as nat) + " bytes, got "@ + decimal(got as nat);
            assert(frame_error_text(e) =~= lead + mid + ")"@);
            crate::text::lemma_middle_is_contained(lead, mid, ")"@);
        },
        FrameFault::TooLong(len, max) => {
            let mid = decimal(len as nat) + " exceeds maximum "@ + decimal(max as nat);
            assert(frame_error_text(e) =~= "frame length "@ + mid);
            crate::text::lemma_middle_is_contained("frame length "@, mid, ""@);
        },
        FrameFault::UnknownTag(tag) => {
            crate::text::lemma_middle_is_contained("unknown frame tag: "@, decimal(tag as nat), ""@);
        },
        FrameFault::Utf8(cause) => {
            crate::text::lemma_middle_is_contained("invalid UTF-8 in frame: "@, cause, ""@);
        },
        FrameFault::AuthFailed(code, reason) => {
            let mid = decimal(code as nat) + ", reason="@ + reason;
            assert(frame_error_text(e) =~= "authentication failed: code="@ + mid);
            crate::text::lemma_middle_is_contained("authentication failed: code="@, mid, ""@);
        },
    }
}

/// The text of a frame holds its fields: names and reasons in quotes, numbers in
/// decimal, bytes as a list.
pub proof fn law_frame_text_holds_the_fields(f: FrameView)
    ensures
        ({
            let text = frame_text(f);
            match f {
                FrameView::AuthNonce { nonce } => crate::text::contains_seq(text, byte_list(nonce)),
                FrameView::AuthProof { mac } => crate::text::contains_seq(text, byte_list(mac)),
                FrameView::AuthErr { code, reason } => crate::text::contains_seq(
                    text,
                    decimal(code as nat) + ", reason: "@ + quoted(reason),
                ),
                FrameView::ControlError { code, reason } => crate::text::contains_seq(
                    text,
                    decimal(code as nat) + ", reason: "@ + quoted(reason),
                ),
                FrameView::HelloOk { session_id } => crate::text::contains_seq(
                    text,
                    decimal(session_id as nat),
                ),
                FrameView::Register { service } | FrameView::RegisterOk { service }
                | FrameView::Subscribe { service } => crate::text::contains_seq(
                    text,
                    quoted(service),
                ),
                FrameView::SubscribeOk { service, .. } => crate::text::contains_seq(
                    text,
                    quoted(service),
                ),
                FrameView::Hello { group_token, client_info } => crate::text::contains_seq(
                    text,
                    quoted(group_token) + ", client_info: "@ + quoted(client_info),
                ),
                FrameView::DataOpen { target_service, target_provider, consumer_node_id, proof } =>
                    crate::text::contains_seq(
                    text,
                    quoted(target_service) + ", target_provider: "@ + quoted(target_provider)
                        + ", consumer_node_id: "@ + quoted(consumer_node_id) + ", proof: "@
                        + byte_list(proof),
                ),
                _ => true,
            }
        }),
        forall|bytes: Seq<u8>, b: u8|
            bytes.len() > 0 ==> #[trigger] joined(bytes.push(b)) == joined(bytes) + ", "@ + decimal(
                b as nat,
            ),
        forall|b: u8| #[trigger] joined(seq![b]) == decimal(b as nat),
{
    assert forall|bytes: Seq<u8>, b: u8| bytes.len() > 0 implies #[trigger] joined(bytes.push(b))
        == joined(bytes) + ", "@ + decimal(b as nat) by {
        assert(bytes.push(b).drop_last() =~= bytes);
    }
    let text = frame_text(f);
    match f {
        FrameView::AuthNonce { nonce } => {
            crate::text::lemma_middle_is_contained("AuthNonce(AuthNonce { nonce: "@, byte_list(nonce), " })"@);
        },
        FrameView::AuthProof { mac } => {
            crate::text::lemma_middle_is_contained("AuthProof(AuthProof { mac: "@, byte_list(mac), " })"@);
        },
        FrameView::AuthErr { code, reason } => {
            let mid = decimal(code as nat) + ", reason: "@ + quoted(reason);
            assert(text =~= "AuthErr(AuthErr { code: "@ + mid + " })"@);
            crate::text::lemma_middle_is_contained("AuthErr(AuthErr { code: "@, mid, " })"@);
        },
        FrameView::ControlError { code, reason } => {
            let mid = decimal(code as nat) + ", reason: "@ + quoted(reason);
            assert(text =~= "ControlError { code: "@ + mid + " }"@);
            crate::text::lemma_middle_is_contained("ControlError { code: "@, mid, " }"@);
        },
        FrameView::HelloOk { session_id } => {
            crate::text::lemma_middle_is_contained(
                "HelloOk(HelloOk { session_id: "@,
                decimal(session_id as nat),
                " })"@,
            );
        },
        FrameView::Register { service } => {
            crate::text::lemma_middle_is_contained("Register(Register { service: "@, quoted(service), " })"@);
        },
        FrameView::RegisterOk { service } => {
            crate::text::lemma_middle_is_contained(
                "RegisterOk(RegisterOk { service: "@,
                quoted(service),
                " })"@,
            );
        },
        FrameView::Subscribe { service } => {
            crate::text::lemma_middle_is_contained("Subscribe(Subscribe { service: "@, quoted(service), " })"@);
        },
        FrameView::SubscribeOk { service, provider_node_id, relay_required } => {
            let tail = ", provider_node_id: "@ + (match provider_node_id {
                Some(id) => "Some("@ + quoted(id) + ")"@,
                None => "None"@,
            }) + ", relay_required: "@ + flag_text(relay_required) + " })"@;
            assert(text =~= "SubscribeOk(SubscribeOk { service: "@ + quoted(service) + tail);
            crate::text::lemma_middle_is_contained(
                "SubscribeOk(SubscribeOk { service: "@,
                quoted(service),
                tail,
            );
        },
        FrameView::Hello { group_token, client_info } => {
            let mid = quoted(group_token) + ", client_info: "@ + quoted(client_info);
            assert(text =~= "Hello(Hello { group_token: "@ + mid + " })"@);
            crate::text::lemma_middle_is_contained("Hello(Hello { group_token: "@, mid, " })"@);
        },
        FrameView::DataOpen { target_service, target_provider, consumer_node_id, proof } => {
            let mid = quoted(target_service) + ", target_provider: "@ + quoted(target_provider)
                + ", consumer_node_id: "@ + quoted(consumer_node_id) + ", proof: "@ + byte_list(
                proof,
            );
            assert(text =~= "DataOpen { target_service: "@ + mid + " }"@);
            crate::text::lemma_middle_is_contained("DataOpen { target_service: "@, mid, " }"@);
        },
        _ => {},
    }
}

/// Bytes are listed in square brackets, each in decimal, with commas between them.
pub proof fn law_byte_lists_are_bracketed(bytes: Seq<u8>, b: u8)
    ensures
        byte_list(bytes) == seq!['['] + joined(bytes) + seq![']'],
        byte_list(Seq::<u8>::empty()) == seq!['[', ']'],
        byte_list(seq![b]) == seq!['['] + decimal(b as nat) + seq![']'],
        flag_text(true) == "true"@ && flag_text(false) == "false"@,
{
    reveal_strlit("[");
    reveal_strlit("]");
    assert("["@ =~= seq!['[']);
    assert("]"@ =~= seq![']']);
    assert(byte_list(Seq::<u8>::empty()) =~= seq!['[', ']']);
}

} // verus!
