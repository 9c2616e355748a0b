use meshly_core::protocol::{
    compute_proof, decode_from_bytes, payload_len, proof_matches, record_payload, verify_proof,
    AuthErr, AuthNonce, AuthOk, AuthProof, Frame, FrameError, Hello, HelloOk, IoErrorKind, Register,
    RegisterOk, Subscribe, SubscribeOk, AUTH_ERR_BAD_PROOF, AUTH_ERR_NO_NONCE, AUTH_ERR_OK,
    AUTH_ERR_SHUTDOWN, AUTH_ERR_TIMEOUT, AUTH_ERR_WRONG_SERVICE, CONTROL_ERROR, CONTROL_HEARTBEAT,
    CONTROL_HELLO, CONTROL_HELLO_OK, CONTROL_REGISTER, CONTROL_REGISTER_OK, CONTROL_SUBSCRIBE,
    CONTROL_SUBSCRIBE_OK, DATA_AUTH_ERR, DATA_AUTH_HELLO, DATA_AUTH_NONCE, DATA_AUTH_OK,
    DATA_AUTH_PROOF, DATA_OPEN, MAX_FRAME_PAYLOAD,
};

fn wire(f: &Frame) -> Vec<u8> {
    let mut out = Vec::new();
    f.write_to(&mut out).unwrap();
    out
}

fn all_variants() -> Vec<Frame> {
    vec![
        Frame::AuthHello,
        Frame::AuthNonce(AuthNonce { nonce: [1u8; 32] }),
        Frame::AuthProof(AuthProof { mac: [2u8; 32] }),
        Frame::AuthOk(AuthOk),
        Frame::AuthErr(AuthErr { code: AUTH_ERR_BAD_PROOF, reason: "bad proof".into() }),
        Frame::DataOpen {
            target_service: "ssh".into(),
            target_provider: "abcd1234".into(),
            consumer_node_id: "consumer-zbase32-id".into(),
            proof: [3u8; 32],
        },
        Frame::Hello(Hello { group_token: "tok".into(), client_info: "client/0.1".into() }),
        Frame::HelloOk(HelloOk { session_id: 42 }),
        Frame::Register(Register { service: "ssh".into() }),
        Frame::RegisterOk(RegisterOk { service: "ssh".into() }),
        Frame::Subscribe(Subscribe { service: "web".into() }),
        Frame::SubscribeOk(SubscribeOk {
            service: "web".into(),
            provider_node_id: Some("nodeid".into()),
            relay_required: false,
        }),
        Frame::Heartbeat,
        Frame::ControlError { code: 7, reason: "boom".into() },
    ]
}

#[test]
fn hmac_proof_is_deterministic_and_service_bound() {
    let secret = b"correct horse battery staple";
    let nonce = [0xab; 32];
    let a = compute_proof(secret, "ssh", &nonce);
    let b = compute_proof(secret, "ssh", &nonce);
    assert_eq!(a, b);
    let c = compute_proof(secret, "web", &nonce);
    assert_ne!(a, c, "different service should yield different proof");
    assert!(verify_proof(secret, "ssh", &nonce, &a));
    assert!(!verify_proof(secret, "web", &nonce, &a));
}

#[test]
fn proof_rejects_wrong_secret() {
    let nonce = [0u8; 32];
    let good = compute_proof(b"abc", "svc", &nonce);
    assert!(!verify_proof(b"abd", "svc", &nonce, &good));
}

#[test]
fn roundtrip_frame_over_async_buf() {
    let f = Frame::AuthNonce(AuthNonce { nonce: [7u8; 32] });
    let copy = f.clone();
    let bytes = wire(&f);
    let (got, used) = Frame::read_from(&bytes).unwrap();
    assert_eq!(used, bytes.len());
    match got {
        Frame::AuthNonce(n) => assert_eq!(n.nonce, [7u8; 32]),
        other => panic!("unexpected frame: {other:?}"),
    }
    assert_eq!(copy.tag(), DATA_AUTH_NONCE);
}

#[test]
fn json_payload_roundtrips() {
    let f = Frame::Hello(Hello {
        group_token: "tkn".into(),
        client_info: "meshly-core-client/0.1".into(),
    });
    let payload = f.encode_payload().unwrap();
    let back = Frame::decode(CONTROL_HELLO, &payload).unwrap();
    match back {
        Frame::Hello(h) => {
            assert_eq!(h.group_token, "tkn");
            assert_eq!(h.client_info, "meshly-core-client/0.1");
        }
        other => panic!("unexpected: {other:?}"),
    }
}

#[test]
fn rejects_oversize_payload() {
    let len: u16 = u16::MAX;
    let mut buf = vec![DATA_AUTH_NONCE, (len & 0xff) as u8, (len >> 8) as u8];
    buf.extend_from_slice(&vec![0u8; 8]);
    let err = Frame::read_from(&buf).unwrap_err();
    assert!(matches!(err, FrameError::TooLong(_, _)));
}

#[test]
fn hmac_proof_accepts_empty_secret() {
    let nonce = [0xab; 32];
    let proof = compute_proof(b"", "svc", &nonce);
    assert!(verify_proof(b"", "svc", &nonce, &proof));
    assert_ne!(proof, compute_proof(b"x", "svc", &nonce));
}

#[test]
fn hmac_proof_accepts_oversized_secret() {
    let secret = vec![0xa5u8; 1024];
    let nonce = [0x33; 32];
    let proof = compute_proof(&secret, "ssh", &nonce);
    assert!(verify_proof(&secret, "ssh", &nonce, &proof));
    let mut other = secret.clone();
    other[500] ^= 0xff;
    assert!(!verify_proof(&other, "ssh", &nonce, &proof));
}

#[test]
fn hmac_proof_is_service_bound_across_services() {
    let secret = b"shared";
    let nonce = [0x77; 32];
    let proof_for_ssh = compute_proof(secret, "ssh", &nonce);
    assert!(verify_proof(secret, "ssh", &nonce, &proof_for_ssh));
    assert!(!verify_proof(secret, "web", &nonce, &proof_for_ssh));
    assert!(!verify_proof(secret, "ssH", &nonce, &proof_for_ssh));
}

#[test]
fn hmac_proof_rejects_tampered_nonce() {
    let secret = b"s3cret";
    let original_nonce = [0u8; 32];
    let proof = compute_proof(secret, "svc", &original_nonce);
    let mut tampered_nonce = original_nonce;
    tampered_nonce[7] = 0xff;
    assert!(!verify_proof(secret, "svc", &tampered_nonce, &proof));
}

#[test]
fn hmac_proof_rejects_single_byte_difference() {
    let secret = b"ss";
    let nonce = [0x42; 32];
    let good = compute_proof(secret, "svc", &nonce);
    assert!(verify_proof(secret, "svc", &nonce, &good));

    let mut flip_first = good;
    flip_first[0] ^= 0x01;
    assert!(!verify_proof(secret, "svc", &nonce, &flip_first));

    let mut flip_last = good;
    flip_last[31] ^= 0x80;
    assert!(!verify_proof(secret, "svc", &nonce, &flip_last));

    assert!(!verify_proof(secret, "svc", &nonce, &[0u8; 32]));
}

#[test]
fn frame_round_trip_all_variants() {
    for original in all_variants() {
        let expected_tag = original.tag();
        let bytes = wire(&original);
        let (got, used) = Frame::read_from(&bytes).expect("round-trip must succeed");
        assert_eq!(used, bytes.len());
        assert_eq!(got.tag(), expected_tag, "tag mismatch for {original:?}");
        assert_eq!(format!("{got:?}"), format!("{original:?}"));
    }
}

#[test]
fn frame_round_trip_truncated_payload_rejected() {
    let mut buf = vec![DATA_AUTH_PROOF, 5, 0];
    buf.extend_from_slice(&[1u8, 2, 3]);
    let err = Frame::read_from(&buf).unwrap_err();
    assert!(matches!(err, FrameError::ShortPayload(5, _)), "got {err:?}");
}

#[test]
fn short_payloads_tell_how_much_came() {
    for have in 0..5usize {
        let mut buf = vec![DATA_AUTH_PROOF, 5, 0];
        buf.extend_from_slice(&vec![7u8; have]);
        let err = Frame::read_from(&buf).unwrap_err();
        assert!(matches!(err, FrameError::ShortPayload(5, n) if n == have), "got {err:?}");
    }
}

#[test]
fn frame_round_trip_oversized_payload_rejected_at_read() {
    let len: usize = MAX_FRAME_PAYLOAD + 1;
    let len_u16 = len as u16;
    let mut buf = vec![DATA_AUTH_NONCE, (len_u16 & 0xff) as u8, (len_u16 >> 8) as u8];
    buf.extend_from_slice(&vec![0u8; 16]);
    let err = Frame::read_from(&buf).unwrap_err();
    assert!(matches!(err, FrameError::TooLong(_, _)), "got {err:?}");
}

#[test]
fn frame_round_trip_payload_exactly_max_succeeds() {
    let reason = "x".repeat(MAX_FRAME_PAYLOAD - 1);
    let payload_len = (1 + reason.len()) as u16;
    let mut buf = vec![DATA_AUTH_ERR, (payload_len & 0xff) as u8, (payload_len >> 8) as u8];
    buf.push(AUTH_ERR_BAD_PROOF);
    buf.extend_from_slice(reason.as_bytes());
    let (frame, _) = Frame::read_from(&buf).unwrap();
    match frame {
        Frame::AuthErr(AuthErr { code, reason: r }) => {
            assert_eq!(code, AUTH_ERR_BAD_PROOF);
            assert_eq!(r.len(), MAX_FRAME_PAYLOAD - 1);
        }
        other => panic!("unexpected frame: {other:?}"),
    }
}

#[test]
fn frame_unknown_tag_rejected() {
    let err = Frame::decode(0xEE, &[1, 2, 3]).unwrap_err();
    assert!(matches!(err, FrameError::UnknownTag(0xEE)));
}

#[test]
fn frame_short_header_rejected() {
    let buf: Vec<u8> = vec![];
    let err = Frame::read_from(&buf).unwrap_err();
    assert!(matches!(err, FrameError::ShortHeader));
}

#[test]
fn proof_of_known_values() {
    // HMAC-SHA256("key", "The quick brown fox jumps over the lazy dog"): the message
    // is split so that its last 32 bytes stand in the nonce.
    let message = b"The quick brown fox jumps over the lazy dog";
    let mut nonce = [0u8; 32];
    nonce.copy_from_slice(&message[11..]);
    assert_eq!(
        hex::encode(compute_proof(b"key", "The quick b", &nonce)),
        "f7bc83f430538424b13298e6aa6fb143ef4d59a14946175997479dbc2d1a3cd8"
    );
}

#[test]
fn proofs_are_compared_in_every_byte() {
    let a = [9u8; 32];
    assert!(proof_matches(&a, &[9u8; 32]));
    for i in 0..32 {
        let mut b = a;
        b[i] = 8;
        assert!(!proof_matches(&a, &b));
    }
}

#[test]
fn wire_form_of_fixed_frames() {
    assert_eq!(wire(&Frame::AuthHello), [0x06, 0, 0]);
    assert_eq!(wire(&Frame::AuthOk(AuthOk)), [0x03, 0, 0]);
    assert_eq!(wire(&Frame::Heartbeat), [0x16, 0, 0]);
    assert_eq!(
        wire(&Frame::AuthErr(AuthErr { code: 3, reason: "no".into() })),
        [0x04, 3, 0, 3, b'n', b'o']
    );
    let mut open = vec![0x05, 2 + 3 + 2 + 1 + 2 + 2 + 32, 0];
    open.extend_from_slice(&[3, 0, b's', b's', b'h', 1, 0, b'p']);
    open.extend_from_slice(&[2, 0, b'c', b'c']);
    open.extend_from_slice(&[5u8; 32]);
    let f = Frame::DataOpen {
        target_service: "ssh".into(),
        target_provider: "p".into(),
        consumer_node_id: "cc".into(),
        proof: [5u8; 32],
    };
    let bytes = wire(&f);
    assert_eq!(bytes.len(), open.len());
    let (back, _) = Frame::read_from(&bytes).unwrap();
    assert_eq!(format!("{back:?}"), format!("{f:?}"));
}

#[test]
fn json_payloads_are_compact_objects_in_field_order() {
    let f = Frame::SubscribeOk(SubscribeOk {
        service: "w\"b".into(),
        provider_node_id: None,
        relay_required: true,
    });
    assert_eq!(
        String::from_utf8(f.encode_payload().unwrap()).unwrap(),
        r#"{"service":"w\"b","provider_node_id":null,"relay_required":true}"#
    );
    let f = Frame::HelloOk(HelloOk { session_id: u64::MAX });
    assert_eq!(
        String::from_utf8(f.encode_payload().unwrap()).unwrap(),
        r#"{"session_id":18446744073709551615}"#
    );
    let f = Frame::ControlError { code: 2, reason: "r".into() };
    let (back, _) = Frame::read_from(&wire(&f)).unwrap();
    assert!(matches!(back, Frame::ControlError { code: 2, .. }));
}

#[test]
fn json_payloads_with_a_missing_or_wrong_field_are_refused() {
    for bad in [
        "",
        "{",
        "{}",
        "[]",
        "null",
        r#"{"group_token":"t"}"#,
        r#"{"group_token":1,"client_info":"c"}"#,
        r#"{"group_token":"t","client_info":null}"#,
    ] {
        let err = Frame::decode(CONTROL_HELLO, bad.as_bytes()).unwrap_err();
        assert!(matches!(err, FrameError::Io(IoErrorKind::InvalidData, _)), "{bad}: {err:?}");
    }
    // Other members are passed over, and the order does not matter.
    let ok = Frame::decode(
        CONTROL_HELLO,
        br#" {"x":[1,{}],"client_info":"c","group_token":"t"} "#,
    )
    .unwrap();
    assert!(matches!(ok, Frame::Hello(h) if h.group_token == "t" && h.client_info == "c"));
    // An optional member may be absent.
    let ok = Frame::decode(CONTROL_SUBSCRIBE_OK, br#"{"service":"s","relay_required":false}"#);
    match ok {
        Ok(Frame::SubscribeOk(s)) => assert!(s.provider_node_id.is_none()),
        other => panic!("unexpected {other:?}"),
    }
}

#[test]
fn record_fields_are_not_repeated_and_others_are_passed_over() {
    let hello = |members: &str| {
        let text = format!(r#"{{"group_token":"t",{members}"client_info":"c"}}"#);
        Frame::decode(CONTROL_HELLO, text.as_bytes())
    };
    assert!(hello("").is_ok());
    for repeated in [r#""group_token":"t","#, r#""client_info":"x","#, r#""group\u005ftoken":"t","#] {
        let err = hello(repeated).unwrap_err();
        assert!(err.message().contains("duplicate field"), "{repeated}: {err:?}");
    }
    // What the record does not have may be repeated, and hold anything.
    let deep = format!("\"x\":{}{},", "[".repeat(500), "]".repeat(500));
    for other in [
        r#""x":1,"x":2,"#,
        r#""x":1e999,"y":-123456789012345678901234567890,"#,
        r#""x":"\ud800","#,
        r#""x":{"group_token":1,"a":[true,null,{}]},"#,
        deep.as_str(),
    ] {
        match hello(other) {
            Ok(Frame::Hello(h)) => assert_eq!((&*h.group_token, &*h.client_info), ("t", "c")),
            got => panic!("{other}: {got:?}"),
        }
    }
    // A field itself has to be readable, and so do all keys.
    for bad in [r#""\ud800":1,"#, r#""x":tru,"#, r#""x":1x,"#, r#""x" 1,"#, r#"x:1,"#, ","] {
        assert!(hello(bad).is_err(), "{bad}");
    }
    let bad = r#"{"group_token":"\ud800","client_info":"c"}"#;
    assert!(Frame::decode(CONTROL_HELLO, bad.as_bytes()).is_err());
    // A record may be an array of its fields.
    match Frame::decode(CONTROL_SUBSCRIBE_OK, b" [ \"s\" , null,true ]\r\n") {
        Ok(Frame::SubscribeOk(s)) => {
            assert_eq!(s.service, "s");
            assert!(s.provider_node_id.is_none() && s.relay_required);
        }
        other => panic!("unexpected {other:?}"),
    }
    for bad in ["[\"s\",null]", "[\"s\",null,true,1]", "[\"s\",null,true", "[\"s\",null,true]x"] {
        assert!(Frame::decode(CONTROL_SUBSCRIBE_OK, bad.as_bytes()).is_err(), "{bad}");
    }
}

#[test]
fn records_are_accepted_where_serde_json_accepts_them() {
    let text = br#" {"a":[1,{"b":"c"}],"group_token":"t\n","n":-1.5e3,"client_info":"c"}"#;
    for at in 0..text.len() {
        for byte in *b" {}[]:,\"\\x1\n\t-.tn" {
            let mut changed = text.to_vec();
            changed[at] = byte;
            let expected = match serde_json::from_slice::<serde_json::Value>(&changed) {
                Ok(serde_json::Value::Object(m)) => {
                    let field = |key: &str| m.get(key).and_then(|v| v.as_str()).map(String::from);
                    field("group_token").zip(field("client_info"))
                }
                _ => None,
            };
            let got = match Frame::decode(CONTROL_HELLO, &changed) {
                Ok(Frame::Hello(h)) => Some((h.group_token, h.client_info)),
                _ => None,
            };
            assert_eq!(got, expected, "{}", String::from_utf8_lossy(&changed));
        }
    }
    for end in 0..text.len() {
        assert!(Frame::decode(CONTROL_HELLO, &text[..end]).is_err());
    }
}

#[test]
fn short_binary_payloads_are_refused() {
    for tag in [DATA_AUTH_NONCE, DATA_AUTH_PROOF] {
        let err = Frame::decode(tag, &[0u8; 31]).unwrap_err();
        assert!(matches!(err, FrameError::ShortPayload(32, 31)), "{err:?}");
    }
    assert!(matches!(Frame::decode(DATA_AUTH_ERR, &[]), Err(FrameError::ShortPayload(1, 0))));
    assert!(matches!(Frame::decode(DATA_AUTH_ERR, &[1, 0xff]), Err(FrameError::Utf8(_))));
    // A relay request that is cut off anywhere is refused and never read past its end.
    let f = Frame::DataOpen {
        target_service: "ssh".into(),
        target_provider: "prov".into(),
        consumer_node_id: "cons".into(),
        proof: [1u8; 32],
    };
    let payload = f.encode_payload().unwrap();
    assert!(Frame::decode(DATA_OPEN, &payload).is_ok());
    for n in 0..payload.len() {
        let err = Frame::decode(DATA_OPEN, &payload[..n]).unwrap_err();
        assert!(matches!(err, FrameError::ShortPayload(_, _)), "{n}: {err:?}");
    }
}

#[test]
fn frames_are_read_from_a_buffer() {
    assert!(matches!(decode_from_bytes(&[0x16, 0]), Err(FrameError::ShortHeader)));
    assert!(matches!(decode_from_bytes(&[0x02, 5, 0, 1]), Err(FrameError::ShortPayload(5, 1))));
    assert!(matches!(decode_from_bytes(&[0x16, 0, 0]), Ok(Frame::Heartbeat)));
    // Bytes behind the frame are left alone.
    let (frame, used) = Frame::read_from(&[0x16, 0, 0, 0x03, 0, 0]).unwrap();
    assert!(matches!(frame, Frame::Heartbeat));
    assert_eq!(used, 3);
}

#[test]
fn payload_lengths_are_little_endian_and_bounded() {
    assert_eq!(payload_len(0x34, 0x12).unwrap(), 0x1234);
    assert_eq!(payload_len(0x00, 0x80).unwrap(), MAX_FRAME_PAYLOAD);
    assert!(matches!(payload_len(0x01, 0x80), Err(FrameError::TooLong(32769, 32768))));
}

#[test]
fn oversized_frames_are_not_written() {
    let f = Frame::AuthErr(AuthErr { code: 1, reason: "x".repeat(MAX_FRAME_PAYLOAD) });
    let mut out = Vec::new();
    assert!(matches!(f.write_to(&mut out), Err(FrameError::TooLong(_, _))));
    assert!(record_payload(vec![0u8; 65535]).is_ok());
    assert!(matches!(record_payload(vec![0u8; 65536]), Err(FrameError::TooLong(65536, 65535))));
}

#[test]
fn tags_and_codes_have_their_values() {
    let tags: Vec<u8> = all_variants().iter().map(|f| f.tag()).collect();
    assert_eq!(
        tags,
        [
            DATA_AUTH_HELLO,
            DATA_AUTH_NONCE,
            DATA_AUTH_PROOF,
            DATA_AUTH_OK,
            DATA_AUTH_ERR,
            DATA_OPEN,
            CONTROL_HELLO,
            CONTROL_HELLO_OK,
            CONTROL_REGISTER,
            CONTROL_REGISTER_OK,
            CONTROL_SUBSCRIBE,
            CONTROL_SUBSCRIBE_OK,
            CONTROL_HEARTBEAT,
            CONTROL_ERROR,
        ]
    );
    assert_eq!(
        [
            AUTH_ERR_OK,
            AUTH_ERR_BAD_PROOF,
            AUTH_ERR_NO_NONCE,
            AUTH_ERR_TIMEOUT,
            AUTH_ERR_SHUTDOWN,
            AUTH_ERR_WRONG_SERVICE,
        ],
        [0, 1, 2, 3, 4, 5]
    );
    for f in all_variants() {
        let control = (0x10..=0x1f).contains(&f.tag());
        let data = (0x01..=0x0f).contains(&f.tag());
        assert!(control != data);
        let payload = f.encode_payload().unwrap();
        assert_eq!(Frame::decode(f.tag(), &payload).unwrap().tag(), f.tag());
    }
}

#[test]
fn frames_are_described_as_their_debug_form() {
    let mut frames = all_variants();
    frames.push(Frame::Register(Register { service: "a\"\\\n\u{1}é\u{301}".into() }));
    frames.push(Frame::SubscribeOk(SubscribeOk {
        service: String::new(),
        provider_node_id: None,
        relay_required: true,
    }));
    for f in frames {
        assert_eq!(f.describe(), format!("{f:?}"));
    }
}

#[test]
fn frame_errors_have_messages() {
    let text = |e: FrameError| e.message();
    assert_eq!(text(FrameError::ShortHeader), "unexpected EOF reading frame header");
    assert_eq!(
        text(FrameError::ShortPayload(5, 3)),
        "unexpected EOF reading frame payload (wanted 5 bytes, got 3)"
    );
    assert_eq!(text(FrameError::TooLong(9, 8)), "frame length 9 exceeds maximum 8");
    assert_eq!(text(FrameError::UnknownTag(238)), "unknown frame tag: 238");
    assert_eq!(
        text(FrameError::AuthFailed(1, "bad".into())),
        "authentication failed: code=1, reason=bad"
    );
    let bad = vec![b'a', 0xff];
    let cause = String::from_utf8(bad.clone()).unwrap_err().to_string();
    let mut payload = vec![1u8];
    payload.extend_from_slice(&bad);
    let err = Frame::decode(DATA_AUTH_ERR, &payload).unwrap_err();
    assert_eq!(text(err), format!("invalid UTF-8 in frame: {cause}"));
    assert_eq!(text(FrameError::Io(IoErrorKind::Other, "reset".into())), "io error: reset");
    let json = |tag: u8, payload: &str| text(Frame::decode(tag, payload.as_bytes()).unwrap_err());
    let broken = serde_json::from_str::<serde_json::Value>("{\"a\":").unwrap_err();
    assert_eq!(json(CONTROL_HELLO, "{\"a\":"), format!("io error: json decode: {broken}"));
    assert_eq!(json(CONTROL_REGISTER, "{}"), "io error: json decode: missing field `service`");
    assert_eq!(
        json(CONTROL_REGISTER, r#"{"service":"a","service":"a"}"#),
        "io error: json decode: duplicate field `service`"
    );
    let mistyped = serde_json::from_str::<String>("1").unwrap_err();
    assert_eq!(
        json(CONTROL_REGISTER, r#"{"service":1}"#),
        format!("io error: json decode: {mistyped}")
    );
    assert_eq!(json(CONTROL_REGISTER, "[]"), "io error: json decode: invalid length");
    assert_eq!(json(CONTROL_REGISTER, "null"), "io error: json decode: not a record");
}
