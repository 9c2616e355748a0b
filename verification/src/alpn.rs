//! ALPN byte strings.
//!
//! | ALPN                  | Direction        | Purpose                                  |
//! |-----------------------|------------------|------------------------------------------|
//! | `meshly-core/control` | client to server | registration, subscription, heartbeat    |
//! | `meshly-core/data`    | client to server | relayed data tunnel (when P2P fails)     |
//! | `meshly-core/<svc>`   | client to client | direct data tunnel for service `<svc>`   |
//!
//! Service names are constrained to `[a-z0-9-]{1,32}` to keep ALPN bytes
//! printable and to prevent collisions in future hierarchical namespaces.
use crate::text::{chars_of, quote, quoted, same_text};
use vstd::prelude::*;
use vstd::string::StringExecFns;
use vstd::utf8::encode_utf8;

verus! {

/// ALPN used by clients to reach the server's control plane.
pub const ALPN_CONTROL: &'static str = "meshly-core/control";

/// ALPN used by clients to reach the server's data relay (P2P fallback).
pub const ALPN_DATA: &'static str = "meshly-core/data";

/// What every ALPN starts with.
pub const ALPN_PREFIX: &'static str = "meshly-core/";

/// Errors returned when a service name fails validation.
#[derive(Debug, PartialEq, Eq)]
pub enum AlpnError {
    /// The length in bytes, outside of `1..=32`.
    BadLength(usize),
    /// A name with a character outside of `[a-z0-9-]`.
    InvalidChars(String),
    /// The name starts or ends with `-`.
    BadEdge,
    /// The name has two `-` in a row.
    DoubleDash,
    /// A name that is kept for administrative ALPNs.
    Reserved(String),
}

/// What an [`AlpnError`] stands for.
pub enum AlpnFault {
    BadLength(nat),
    InvalidChars(Seq<char>),
    BadEdge,
    DoubleDash,
    Reserved(Seq<char>),
}

impl View for AlpnError {
    type V = AlpnFault;

    open spec fn view(&self) -> AlpnFault {
        match self {
            AlpnError::BadLength(n) => AlpnFault::BadLength(*n as nat),
            AlpnError::InvalidChars(name) => AlpnFault::InvalidChars(name@),
            AlpnError::BadEdge => AlpnFault::BadEdge,
            AlpnError::DoubleDash => AlpnFault::DoubleDash,
            AlpnError::Reserved(name) => AlpnFault::Reserved(name@),
        }
    }
}

/// A lower-case ASCII letter, an ASCII digit or `-`.
pub open spec fn is_name_char(c: char) -> bool {
    ('a' <= c && c <= 'z') || ('0' <= c && c <= '9') || c == '-'
}

/// Two dashes in a row, somewhere in `name`.
pub open spec fn has_double_dash(name: Seq<char>) -> bool {
    exists|i: int| 0 <= i && i + 1 < name.len() && #[trigger] name[i] == '-' && name[i + 1] == '-'
}

/// Names kept for administrative ALPNs.
pub open spec fn is_reserved_name(name: Seq<char>) -> bool {
    ||| name == "control"@
    ||| name == "data"@
    ||| name == "status"@
    ||| name == "reload"@
    ||| name == "admin"@
    ||| name == "metrics"@
    ||| name == "ping"@
}

/// The first rule that a service name breaks.
pub open spec fn name_fault(name: Seq<char>) -> Option<AlpnFault> {
    if !(1 <= encode_utf8(name).len() <= 32) {
        Some(AlpnFault::BadLength(encode_utf8(name).len()))
    } else if name[0] == '-' || name.last() == '-' {
        Some(AlpnFault::BadEdge)
    } else if has_double_dash(name) {
        Some(AlpnFault::DoubleDash)
    } else if exists|i: int| 0 <= i < name.len() && !is_name_char(#[trigger] name[i]) {
        Some(AlpnFault::InvalidChars(name))
    } else if is_reserved_name(name) {
        Some(AlpnFault::Reserved(name))
    } else {
        None
    }
}

/// A name that a service may have.
pub open spec fn is_service_name(name: Seq<char>) -> bool {
    name_fault(name) is None
}

/// The ALPN of a service.
pub open spec fn service_alpn(name: Seq<char>) -> Seq<u8> {
    encode_utf8("meshly-core/"@ + name)
}

/// What an [`AlpnFault`] is reported as.
pub open spec fn fault_message(fault: AlpnFault) -> Seq<char> {
    match fault {
        AlpnFault::BadLength(n) => "service name must be 1..=32 chars, got "@
            + crate::text::decimal(n),
        AlpnFault::InvalidChars(name) => "service name has invalid chars (allowed: [a-z0-9-]): "@
            + quoted(name),
        AlpnFault::BadEdge => "service name must not start or end with '-'"@,
        AlpnFault::DoubleDash => "service name must not contain consecutive '-'"@,
        AlpnFault::Reserved(name) => "service name is reserved: "@ + quoted(name),
    }
}

impl AlpnError {
    /// The message for the user.
    pub fn message(&self) -> (text: String)
        ensures
            text@ == fault_message(self@),
    {
        match self {
            AlpnError::BadLength(n) => {
                "service name must be 1..=32 chars, got ".to_owned().concat(
                    crate::text::decimal_text(*n as u64).as_str(),
                )
            },
            AlpnError::InvalidChars(name) => {
                "service name has invalid chars (allowed: [a-z0-9-]): ".to_owned().concat(
                    quote(name.as_str()).as_str(),
                )
            },
            AlpnError::BadEdge => "service name must not start or end with '-'".to_owned(),
            AlpnError::DoubleDash => "service name must not contain consecutive '-'".to_owned(),
            AlpnError::Reserved(name) => {
                "service name is reserved: ".to_owned().concat(quote(name.as_str()).as_str())
            },
        }
    }
}

/// Returns the ALPN bytes for the control plane.
pub fn alpn_control() -> (alpn: Vec<u8>)
    ensures
        alpn@ == encode_utf8("meshly-core/control"@),
{
    vstd::slice::slice_to_vec(ALPN_CONTROL.as_bytes())
}

/// Returns the ALPN bytes for the data relay plane.
pub fn alpn_data() -> (alpn: Vec<u8>)
    ensures
        alpn@ == encode_utf8("meshly-core/data"@),
{
    vstd::slice::slice_to_vec(ALPN_DATA.as_bytes())
}

/// Returns the ALPN bytes for direct P2P data transfer of `service`, which is
/// `meshly-core/` with the name behind it.
pub fn alpn_for_service(service: &str) -> (r: Result<Vec<u8>, AlpnError>)
    ensures
        match r {
            Ok(alpn) => is_service_name(service@) && alpn@ == service_alpn(service@),
            Err(e) => name_fault(service@) == Some(e@),
        },
{
    match validate_service_name(service) {
        Ok(_) => {
            let text = ALPN_PREFIX.to_owned().concat(service);
            Ok(vstd::slice::slice_to_vec(text.as_str().as_bytes()))
        },
        Err(e) => Err(e),
    }
}

/// Whether `chars` holds two dashes in a row.
fn double_dash(chars: &Vec<char>) -> (found: bool)
    ensures
        found == has_double_dash(chars@),
{
    let mut i: usize = 1;
    while i < chars.len()
        invariant
            1 <= i,
            i <= chars@.len() || chars@.len() == 0,
            forall|j: int| 0 <= j && j + 1 < i ==> !(#[trigger] chars@[j] == '-' && chars@[j + 1] == '-'),
        decreases chars.len() - i,
    {
        if chars[i - 1] == '-' && chars[i] == '-' {
            assert(chars@[i - 1] == '-' && chars@[i - 1 + 1] == '-');
            return true;
        }
        i = i + 1;
    }
    false
}

/// Whether every character may stand in a service name.
fn all_name_chars(chars: &Vec<char>) -> (all: bool)
    ensures
        all == !(exists|i: int| 0 <= i < chars@.len() && !is_name_char(#[trigger] chars@[i])),
{
    let mut i: usize = 0;
    while i < chars.len()
        invariant
            i <= chars@.len(),
            forall|j: int| 0 <= j < i ==> is_name_char(#[trigger] chars@[j]),
        decreases chars.len() - i,
    {
        let c: char = chars[i];
        if !(('a' <= c && c <= 'z') || ('0' <= c && c <= '9') || c == '-') {
            assert(!is_name_char(chars@[i as int]));
            return false;
        }
        i = i + 1;
    }
    true
}

/// Validates a service name: the first rule that it breaks, if any.
pub fn validate_service_name(name: &str) -> (r: Result<(), AlpnError>)
    ensures
        match r {
            Ok(_) => is_service_name(name@),
            Err(e) => name_fault(name@) == Some(e@),
        },
{
    let len: usize = name.as_bytes().len();
    if len < 1 || len > 32 {
        return Err(AlpnError::BadLength(len));
    }
    let chars = chars_of(name);
    proof {
        if name@.len() == 0 {
            assert(encode_utf8(name@) =~= Seq::<u8>::empty());
        }
    }
    if chars[0] == '-' || chars[chars.len() - 1] == '-' {
        return Err(AlpnError::BadEdge);
    }
    if double_dash(&chars) {
        return Err(AlpnError::DoubleDash);
    }
    if !all_name_chars(&chars) {
        return Err(AlpnError::InvalidChars(name.to_owned()));
    }
    if same_text(name, "control") || same_text(name, "data") || same_text(name, "status")
        || same_text(name, "reload") || same_text(name, "admin") || same_text(name, "metrics")
        || same_text(name, "ping") {
        return Err(AlpnError::Reserved(name.to_owned()));
    }
    Ok(())
}

proof fn lemma_encode_utf8_injective(a: Seq<char>, b: Seq<char>)
    requires
        encode_utf8(a) == encode_utf8(b),
    ensures
        a == b,
{
    vstd::utf8::encode_utf8_decode_utf8(a);
    vstd::utf8::encode_utf8_decode_utf8(b);
}

/// Different services have different ALPNs.
pub proof fn law_service_alpns_differ(a: Seq<char>, b: Seq<char>)
    requires
        service_alpn(a) == service_alpn(b),
    ensures
        a == b,
{
    lemma_encode_utf8_injective("meshly-core/"@ + a, "meshly-core/"@ + b);
    let n = "meshly-core/"@.len() as int;
    assert(a =~= ("meshly-core/"@ + a).skip(n));
    assert(b =~= ("meshly-core/"@ + b).skip(n));
}

/// No service has the ALPN of the control plane or of the data relay.
pub proof fn law_service_alpn_is_not_infrastructure(name: Seq<char>)
    requires
        is_service_name(name),
    ensures
        service_alpn(name) != encode_utf8("meshly-core/control"@),
        service_alpn(name) != encode_utf8("meshly-core/data"@),
{
    reveal_strlit("meshly-core/");
    reveal_strlit("meshly-core/control");
    reveal_strlit("meshly-core/data");
    reveal_strlit("control");
    reveal_strlit("data");
    let full = "meshly-core/"@ + name;
    assert(name =~= full.skip(12));
    if service_alpn(name) == encode_utf8("meshly-core/control"@) {
        lemma_encode_utf8_injective(full, "meshly-core/control"@);
        assert("meshly-core/control"@.skip(12) =~= "control"@);
    }
    if service_alpn(name) == encode_utf8("meshly-core/data"@) {
        lemma_encode_utf8_injective(full, "meshly-core/data"@);
        assert("meshly-core/data"@.skip(12) =~= "data"@);
    }
}

/// A service name is 1 to 32 characters out of `[a-z0-9-]`.
pub proof fn law_service_name_shape(name: Seq<char>)
    requires
        is_service_name(name),
    ensures
        1 <= name.len() <= 32,
        forall|i: int| 0 <= i < name.len() ==> is_name_char(#[trigger] name[i]),
{
    assert(vstd::utf8::is_ascii_chars(name)) by {
        assert forall|i: int| 0 <= i < name.len() implies '\0' <= #[trigger] name[i] <= '\u{7f}' by {
            assert(is_name_char(name[i]));
        }
    }
    vstd::utf8::is_ascii_chars_encode_utf8(name);
}

/// A name is a service's exactly where it has 1 to 32 lower-case letters, digits and
/// dashes, neither starts nor ends with a dash, has no two dashes in a row and is none
/// of the names that are kept for administration.
pub proof fn law_service_names(name: Seq<char>)
    ensures
        is_service_name(name) <==> {
            &&& 1 <= name.len() <= 32
            &&& forall|i: int|
                0 <= i < name.len() ==> 'a' <= #[trigger] name[i] <= 'z' || '0' <= name[i] <= '9'
                    || name[i] == '-'
            &&& name[0] != '-'
            &&& name[name.len() - 1] != '-'
            &&& forall|i: int|
                0 <= i < name.len() - 1 ==> !(#[trigger] name[i] == '-' && name[i + 1] == '-')
            &&& name != "control"@ && name != "data"@ && name != "status"@ && name != "reload"@
            &&& name != "admin"@ && name != "metrics"@ && name != "ping"@
        },
{
    let plain = forall|i: int|
        0 <= i < name.len() ==> 'a' <= #[trigger] name[i] <= 'z' || '0' <= name[i] <= '9' || name[i]
            == '-';
    if is_service_name(name) {
        law_service_name_shape(name);
        assert forall|i: int| 0 <= i < name.len() implies 'a' <= #[trigger] name[i] <= 'z' || '0'
            <= name[i] <= '9' || name[i] == '-' by {
            assert(is_name_char(name[i]));
        }
    } else if 1 <= name.len() <= 32 && plain {
        assert forall|i: int| 0 <= i < name.len() implies is_name_char(#[trigger] name[i]) by {}
        assert(vstd::utf8::is_ascii_chars(name)) by {
            assert forall|i: int| 0 <= i < name.len() implies '\0' <= #[trigger] name[i]
                <= '\u{7f}' by {
                assert(is_name_char(name[i]));
            }
        }
        vstd::utf8::is_ascii_chars_encode_utf8(name);
    }
}

/// The fault that is named is one of the name: the length in bytes, which is not 1 to
/// 32, a dash at an end, two dashes in a row, a character that may not stand there, or
/// a name that is kept. Where one of them stands, some fault is named.
pub proof fn law_named_fault_is_there(name: Seq<char>)
    ensures
        match name_fault(name) {
            Some(AlpnFault::BadLength(n)) => n == encode_utf8(name).len() && (n == 0 || n > 32),
            Some(AlpnFault::BadEdge) => name[0] == '-' || name.last() == '-',
            Some(AlpnFault::DoubleDash) => exists|i: int|
                0 <= i < name.len() - 1 && #[trigger] name[i] == '-' && name[i + 1] == '-',
            Some(AlpnFault::InvalidChars(text)) => text == name && exists|i: int|
                0 <= i < name.len() && !('a' <= #[trigger] name[i] <= 'z' || '0' <= name[i] <= '9'
                    || name[i] == '-'),
            Some(AlpnFault::Reserved(text)) => text == name && (name == "control"@ || name
                == "data"@ || name == "status"@ || name == "reload"@ || name == "admin"@ || name
                == "metrics"@ || name == "ping"@),
            None => true,
        },
        !(1 <= encode_utf8(name).len() <= 32) ==> name_fault(name) is Some,
{
    match name_fault(name) {
        Some(AlpnFault::DoubleDash) => {
            let i = choose|i: int|
                0 <= i && i + 1 < name.len() && #[trigger] name[i] == '-' && name[i + 1] == '-';
            assert(0 <= i < name.len() - 1 && name[i] == '-' && name[i + 1] == '-');
        },
        Some(AlpnFault::InvalidChars(_)) => {
            let i = choose|i: int| 0 <= i < name.len() && !is_name_char(#[trigger] name[i]);
            assert(!('a' <= name[i] <= 'z' || '0' <= name[i] <= '9' || name[i] == '-'));
        },
        _ => {},
    }
}

/// The ALPN of a service is `meshly-core/` with the name behind it.
pub proof fn law_alpn_holds_the_name(name: Seq<char>)
    requires
        is_service_name(name),
    ensures
        service_alpn(name) == encode_utf8("meshly-core/"@ + name),
        service_alpn(name).len() == 12 + name.len(),
{
    reveal_strlit("meshly-core/");
    law_service_name_shape(name);
    let full = "meshly-core/"@ + name;
    assert(vstd::utf8::is_ascii_chars(full)) by {
        assert forall|i: int| 0 <= i < full.len() implies '\0' <= #[trigger] full[i]
            <= '\u{7f}' by {
            if i >= 12 {
                assert(full[i] == name[i - 12]);
                assert(is_name_char(name[i - 12]));
            } else {
                assert(full[i] == "meshly-core/"@[i]);
            }
        }
    }
    vstd::utf8::is_ascii_chars_encode_utf8(full);
}

/// The message of a fault holds the name, or the length, that is at fault.
pub proof fn law_fault_message_names_the_fault(fault: AlpnFault)
    ensures
        match fault {
            AlpnFault::BadLength(n) => crate::text::contains_seq(
                fault_message(fault),
                crate::text::decimal(n),
            ),
            AlpnFault::InvalidChars(name) => crate::text::contains_seq(
                fault_message(fault),
                quoted(name),
            ),
            AlpnFault::Reserved(name) => crate::text::contains_seq(fault_message(fault), quoted(name)),
            _ => true,
        },
        fault is BadEdge ==> fault_message(fault) != fault_message(AlpnFault::DoubleDash),
{
    match fault {
        AlpnFault::BadLength(n) => {
            crate::text::lemma_middle_is_contained(
                "service name must be 1..=32 chars, got "@,
                crate::text::decimal(n),
                ""@,
            );
        },
        AlpnFault::InvalidChars(name) => {
            crate::text::lemma_middle_is_contained(
                "service name has invalid chars (allowed: [a-z0-9-]): "@,
                quoted(name),
                ""@,
            );
        },
        AlpnFault::Reserved(name) => {
            crate::text::lemma_middle_is_contained("service name is reserved: "@, quoted(name), ""@);
        },
        _ => {
            reveal_strlit("service name must not start or end with '-'");
            reveal_strlit("service name must not contain consecutive '-'");
            assert("service name must not start or end with '-'"@.len()
                != "service name must not contain consecutive '-'"@.len());
        },
    }
}

} // verus!
