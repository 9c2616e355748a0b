use meshly_core::alpn::{
    alpn_control, alpn_data, alpn_for_service, validate_service_name, AlpnError, ALPN_CONTROL,
    ALPN_DATA, ALPN_PREFIX,
};
use meshly_core::endpoint::{
    endpoint_text, endpoint_z32, parse_endpoint_id, parse_hex_key, same_id,
};
use meshly_core::gui::placeholder;
use meshly_core::identity::{
    decode_key, default_place, identity_paths, load_or_generate_at, node_id, node_id_text, settle,
    node_id_z32, Identity, IdentityError, KEY_DIR, KEY_FILE, TMP_FILE,
};
use meshly_core::tunnel::{BiStream, BridgeStats};

#[test]
fn placeholder_is_non_empty() {
    assert!(!placeholder().is_empty());
}

#[test]
fn placeholder_text() {
    assert_eq!(placeholder(), "meshly-core-client-gui: placeholder; GUI not implemented in v1");
}

// ALPNs ----------------------------------------------------------------------

#[test]
fn alpn_for_valid_service() {
    assert_eq!(alpn_for_service("ssh").unwrap(), b"meshly-core/ssh");
    assert_eq!(alpn_for_service("my-web-1").unwrap(), b"meshly-core/my-web-1");
}

#[test]
fn rejects_invalid_names() {
    assert!(matches!(validate_service_name(""), Err(AlpnError::BadLength(0))));
    assert!(matches!(validate_service_name(&"a".repeat(33)), Err(AlpnError::BadLength(33))));
    assert!(matches!(validate_service_name("-ssh"), Err(AlpnError::BadEdge)));
    assert!(matches!(validate_service_name("ssh-"), Err(AlpnError::BadEdge)));
    assert!(matches!(validate_service_name("ss--h"), Err(AlpnError::DoubleDash)));
    assert!(matches!(validate_service_name("SSH"), Err(AlpnError::InvalidChars(_))));
    assert!(matches!(validate_service_name("ssh_22"), Err(AlpnError::InvalidChars(_))));
    assert!(matches!(validate_service_name("control"), Err(AlpnError::Reserved(_))));
}

#[test]
fn accepts_boundary_lengths() {
    assert!(validate_service_name("a").is_ok());
    assert!(validate_service_name(&"a".repeat(32)).is_ok());
}

#[test]
fn reserved_names_and_infrastructure_alpns() {
    for name in ["control", "data", "status", "reload", "admin", "metrics", "ping"] {
        assert!(matches!(validate_service_name(name), Err(AlpnError::Reserved(n)) if n == name));
        assert!(alpn_for_service(name).is_err());
    }
    assert_eq!(alpn_control(), b"meshly-core/control");
    assert_eq!(alpn_data(), b"meshly-core/data");
    assert_eq!(ALPN_CONTROL, "meshly-core/control");
    assert_eq!(ALPN_DATA, "meshly-core/data");
    assert_eq!(ALPN_PREFIX, "meshly-core/");
}

#[test]
fn name_lengths_are_counted_in_bytes() {
    assert!(matches!(validate_service_name("é"), Err(AlpnError::InvalidChars(_))));
    assert!(matches!(validate_service_name(&"é".repeat(17)), Err(AlpnError::BadLength(34))));
}

#[test]
fn name_errors_have_messages() {
    let text = |name: &str| validate_service_name(name).unwrap_err().message();
    assert_eq!(text(""), "service name must be 1..=32 chars, got 0");
    assert_eq!(
        text("a b"),
        "service name has invalid chars (allowed: [a-z0-9-]): \"a b\""
    );
    assert_eq!(text("-a"), "service name must not start or end with '-'");
    assert_eq!(text("a--b"), "service name must not contain consecutive '-'");
    assert_eq!(text("data"), "service name is reserved: \"data\"");
}

// Endpoint ids ---------------------------------------------------------------

#[test]
fn parses_zbase32_round_trip() {
    let arr = [0u8; 32];
    let id = iroh::PublicKey::from_bytes(&arr).unwrap();
    let s = id.to_string();
    assert_eq!(parse_endpoint_id(&s), Some(*id.as_bytes()));
}

#[test]
fn parses_hex_form() {
    let arr = [
        0x01, 0x23, 0x45, 0x67, 0x89, 0xab, 0xcd, 0xef, 0x01, 0x23, 0x45, 0x67, 0x89, 0xab, 0xcd,
        0xef, 0x01, 0x23, 0x45, 0x67, 0x89, 0xab, 0xcd, 0xef, 0x01, 0x23, 0x45, 0x67, 0x89, 0xab,
        0xcd, 0xef,
    ];
    let id = iroh::PublicKey::from_bytes(&arr).unwrap();
    let hex_str = hex::encode(arr);
    assert_eq!(parse_endpoint_id(&hex_str), Some(*id.as_bytes()));
}

#[test]
fn rejects_garbage() {
    assert!(parse_endpoint_id("not-a-node-id").is_none());
    assert!(parse_endpoint_id(&"ab".repeat(32)).is_none());
    assert!(parse_endpoint_id("").is_none());
}

#[test]
fn ids_of_real_keys_round_trip_in_every_form() {
    let key = iroh::SecretKey::from_bytes(&[7u8; 32]).public();
    let id = *key.as_bytes();
    assert_eq!(endpoint_text(&id), key.to_string());
    assert_eq!(parse_endpoint_id(&endpoint_text(&id)), Some(id));
    assert_eq!(parse_endpoint_id(&hex::encode(id)), Some(id));
    assert_eq!(parse_endpoint_id(&hex::encode_upper(id)), Some(id));
    for seed in 0..100u8 {
        let key = iroh::SecretKey::from_bytes(&[seed; 32]).public();
        let id = *key.as_bytes();
        assert_eq!(endpoint_z32(&id), Some(key.to_z32()));
        assert_eq!(node_id_z32(&[seed; 32]), key.to_z32());
        assert_eq!(parse_endpoint_id(&key.to_z32()), Some(id));
    }
    assert_eq!(endpoint_z32(&[0xabu8; 32]), None);
    assert!(same_id(&id, &id));
    let mut other = id;
    other[31] ^= 1;
    assert!(!same_id(&id, &other));
}

#[test]
fn hex_keys_have_sixty_four_digits() {
    assert_eq!(parse_hex_key(&"0a".repeat(32)), Some([10u8; 32]));
    assert_eq!(parse_hex_key(&"0A".repeat(32)), Some([10u8; 32]));
    assert_eq!(parse_hex_key(&"0a".repeat(31)), None);
    assert_eq!(parse_hex_key(&"0g".repeat(32)), None);
    assert_eq!(parse_hex_key("abc"), None);
}

#[test]
fn ids_that_are_no_keys_print_as_hex() {
    assert_eq!(endpoint_text(&[0xabu8; 32]), "ab".repeat(32));
}

// Identity -------------------------------------------------------------------

/// What a load leaves on disk.
fn run(disk: &mut Option<Vec<u8>>) -> Identity {
    let identity = load_or_generate_at(disk).ok().unwrap();
    if identity.persist {
        *disk = Some(identity.key.to_vec());
    }
    identity
}

#[test]
fn roundtrip_key_at_tmp_path() {
    let mut disk = None;
    let k1 = run(&mut disk);
    assert!(disk.is_some());
    let k2 = run(&mut disk);
    assert_eq!(node_id(&k1.key), node_id(&k2.key), "key should persist across reads");
}

#[test]
fn different_paths_yield_different_keys() {
    let mut a = None;
    let mut b = None;
    let k1 = run(&mut a);
    let k2 = run(&mut b);
    assert_ne!(node_id(&k1.key), node_id(&k2.key));
}

#[test]
fn load_or_generate_at_is_idempotent() {
    let mut disk = None;
    let k1 = run(&mut disk);
    let bytes_after_first = disk.clone();
    let k2 = run(&mut disk);
    assert_eq!(k1.key, k2.key, "SecretKey bytes must be identical across calls");
    assert!(!k2.persist);
    assert_eq!(bytes_after_first, disk, "file bytes must not be rewritten on second load");
}

#[test]
fn load_or_generate_at_creates_new_key_when_missing() {
    let mut disk = None;
    let identity = run(&mut disk);
    assert!(identity.persist);
    let bytes = disk.unwrap();
    assert_eq!(bytes.len(), 32);
    assert_eq!(bytes, identity.key);
}

#[test]
fn key_files_of_another_length_are_refused() {
    assert_eq!(decode_key(&[3u8; 32]).ok(), Some([3u8; 32]));
    for n in [0usize, 31, 33] {
        let content = Some(vec![1u8; n]);
        match load_or_generate_at(&content) {
            Err(IdentityError::BadLength(got)) => assert_eq!(got, n),
            _ => panic!("a key file of {n} bytes was accepted"),
        }
        assert!(settle(&content, [0u8; 32]).is_err());
    }
    assert_eq!(
        decode_key(&[0u8; 5]).unwrap_err().message(),
        "identity key must be exactly 32 bytes, got 5"
    );
}

#[test]
fn node_ids_are_those_of_iroh() {
    let secret = [42u8; 32];
    let public = iroh::SecretKey::from_bytes(&secret).public();
    assert_eq!(node_id(&secret), *public.as_bytes());
    assert_eq!(node_id_text(&secret), public.to_string());
    assert_eq!(node_id_text(&secret), hex::encode(public.as_bytes()));
    assert_eq!(parse_endpoint_id(&node_id_text(&secret)), Some(*public.as_bytes()));
}

#[test]
fn identity_lives_below_the_config_dir() {
    let (dir, file) = default_place(true).unwrap();
    let base = std::path::Path::new("/home/u/.config");
    assert_eq!(
        base.join(dir).join(file),
        std::path::Path::new("/home/u/.config/meshly-core/identity.key")
    );
    assert_eq!((dir, file, TMP_FILE), (KEY_DIR, KEY_FILE, ".identity.key.tmp"));
    assert_eq!(
        default_place(false).unwrap_err().message(),
        "could not determine user config directory"
    );
    let paths = identity_paths("/a/b.key", Some("/a")).unwrap();
    assert_eq!(paths.dir, "/a");
    assert_eq!(paths.key_file, "/a/b.key");
    assert_eq!(
        identity_paths("/", None).unwrap_err().message(),
        "identity key path has no parent: /"
    );
}

// Streams --------------------------------------------------------------------

#[test]
fn bridge_counts_start_at_zero() {
    let stats = BridgeStats::default();
    assert_eq!((stats.a_to_b, stats.b_to_a), (0, 0));
    let s = BiStream::new(1u8, "w");
    assert_eq!((s.reader, s.writer), (1, "w"));
}
