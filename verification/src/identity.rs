//! The secret key that gives a node its stable public id.
//!
//! The key is kept between runs in `<config_dir>/meshly-core/identity.key`, as its
//! 32 raw bytes. Where the file exists its key is used and the file is left as it
//! is; where it is missing a fresh key is made and written.
use crate::endpoint::{
    endpoint_id, endpoint_text, endpoint_z32, iroh_id, is_public_key, lower_hex, z32_text, EndpointId,
};
use crate::protocol::array32;
use crate::text::{decimal, decimal_text};
use vstd::prelude::*;
use vstd::string::StringExecFns;

verus! {

/// The bytes of a secret key.
pub type SecretKeyBytes = [u8; 32];

/// The bytes of the public key that belongs to the bytes of a secret key.
pub uninterp spec fn public_bytes(secret: Seq<u8>) -> Seq<u8>;

/// Calls `iroh::SecretKey::from_bytes` and `public`. The public key is a function
/// of the secret bytes alone, and its bytes are those of a public key.
#[verifier::external_body]
fn public_of(secret: &SecretKeyBytes) -> (id: EndpointId)
    ensures
        id@ == public_bytes(secret@),
        is_public_key(id@),
{
    *iroh::SecretKey::from_bytes(secret).public().as_bytes()
}

/// Calls `iroh::SecretKey::generate` and takes the key's bytes. Nothing is
/// promised of them: they are random.
#[verifier::external_body]
fn generate_key() -> (secret: SecretKeyBytes) {
    iroh::SecretKey::generate().to_bytes()
}

/// Paths used by identity persistence.
#[derive(Debug, Clone)]
pub struct IdentityPaths {
    /// Directory that holds the key file.
    pub dir: String,
    /// Full path of the key file.
    pub key_file: String,
}

/// Why there is no identity.
#[derive(Debug)]
pub enum IdentityError {
    /// The path of the key file has no parent.
    NoParent(String),
    /// The key file has this many bytes.
    BadLength(usize),
    /// The user has no configuration directory.
    NoConfigDir,
}

/// What an [`IdentityError`] stands for.
pub enum IdentityFault {
    NoParent(Seq<char>),
    BadLength(nat),
    NoConfigDir,
}

impl View for IdentityError {
    type V = IdentityFault;

    open spec fn view(&self) -> IdentityFault {
        match self {
            IdentityError::NoParent(path) => IdentityFault::NoParent(path@),
            IdentityError::BadLength(n) => IdentityFault::BadLength(*n as nat),
            IdentityError::NoConfigDir => IdentityFault::NoConfigDir,
        }
    }
}

impl IdentityFault {
    /// The text of this error.
    pub open spec fn text(self) -> Seq<char> {
        match self {
            IdentityFault::NoParent(path) => "identity key path has no parent: "@ + path,
            IdentityFault::BadLength(n) => "identity key must be exactly 32 bytes, got "@ + decimal(
                n,
            ),
            IdentityFault::NoConfigDir => "could not determine user config directory"@,
        }
    }
}

impl IdentityError {
    /// The text of this error.
    pub fn message(&self) -> (text: String)
        ensures
            text@ == self@.text(),
    {
        match self {
            IdentityError::NoParent(path) => "identity key path has no parent: ".to_owned().concat(
                path.as_str(),
            ),
            IdentityError::BadLength(
                n,
            ) => "identity key must be exactly 32 bytes, got ".to_owned().concat(
                decimal_text(*n as u64).as_str(),
            ),
            IdentityError::NoConfigDir => "could not determine user config directory".to_owned(),
        }
    }
}

/// The directory of the key file below the user's configuration directory.
pub const KEY_DIR: &'static str = "meshly-core";

/// The name of the key file.
pub const KEY_FILE: &'static str = "identity.key";

/// The name, next to the key file, that a fresh key is written under before it is
/// moved to its place, so that the key file is never seen half written.
pub const TMP_FILE: &'static str = ".identity.key.tmp";

/// The place of the key file below the user's configuration directory, where the
/// user has one: a directory, and in it a file.
pub fn default_place(has_config_dir: bool) -> (r: Result<
    (&'static str, &'static str),
    IdentityError,
>)
    ensures
        match r {
            Ok((dir, file)) => has_config_dir && dir@ == "meshly-core"@ && file@
                == "identity.key"@,
            Err(e) => !has_config_dir && e@ == IdentityFault::NoConfigDir,
        },
{
    if has_config_dir {
        Ok((KEY_DIR, KEY_FILE))
    } else {
        Err(IdentityError::NoConfigDir)
    }
}

/// The paths for a key file with this parent directory.
pub fn identity_paths(key_file: &str, parent: Option<&str>) -> (r: Result<
    IdentityPaths,
    IdentityError,
>)
    ensures
        match (parent, r) {
            (Some(dir), Ok(paths)) => paths.dir@ == dir@ && paths.key_file@ == key_file@,
            (None, Err(e)) => e@ == IdentityFault::NoParent(key_file@),
            _ => false,
        },
{
    match parent {
        Some(dir) => Ok(IdentityPaths { dir: dir.to_owned(), key_file: key_file.to_owned() }),
        None => Err(IdentityError::NoParent(key_file.to_owned())),
    }
}

/// The key in the content of a key file, or what is wrong with it.
pub open spec fn decoded_key(bytes: Seq<u8>) -> Result<Seq<u8>, IdentityFault> {
    if bytes.len() == 32 {
        Ok(bytes)
    } else {
        Err(IdentityFault::BadLength(bytes.len()))
    }
}

/// A result that holds a key, with both sides viewed.
pub open spec fn key_result(r: Result<SecretKeyBytes, IdentityError>) -> Result<
    Seq<u8>,
    IdentityFault,
> {
    match r {
        Ok(key) => Ok(key@),
        Err(e) => Err(e@),
    }
}

/// Decodes a key from the content of a key file.
pub fn decode_key(bytes: &[u8]) -> (r: Result<SecretKeyBytes, IdentityError>)
    ensures
        key_result(r) == decoded_key(bytes@),
{
    let n: usize = bytes.len();
    if n != 32 {
        return Err(IdentityError::BadLength(n));
    }
    let key = array32(bytes, 0);
    assert(key@ =~= bytes@);
    Ok(key)
}

/// A key that a node runs with.
#[derive(Clone, Copy)]
pub struct Identity {
    pub key: SecretKeyBytes,
    /// Whether the key file is to be written with the key's bytes.
    pub persist: bool,
}

/// What an [`Identity`] stands for.
pub struct IdentityView {
    pub key: Seq<u8>,
    pub persist: bool,
}

impl View for Identity {
    type V = IdentityView;

    open spec fn view(&self) -> IdentityView {
        IdentityView { key: self.key@, persist: self.persist }
    }
}

/// A result that holds an identity, with both sides viewed.
pub open spec fn identity_result(r: Result<Identity, IdentityError>) -> Result<
    IdentityView,
    IdentityFault,
> {
    match r {
        Ok(identity) => Ok(identity@),
        Err(e) => Err(e@),
    }
}

/// The content of a key file, if there is one.
pub open spec fn content_of(on_disk: Option<Vec<u8>>) -> Option<Seq<u8>> {
    match on_disk {
        Some(bytes) => Some(bytes@),
        None => None,
    }
}

/// The identity to run with: the key on disk, which stays as it is, or a fresh
/// one, which is written.
pub open spec fn settled(on_disk: Option<Seq<u8>>, fresh: Seq<u8>) -> Result<
    IdentityView,
    IdentityFault,
> {
    match on_disk {
        Some(bytes) => match decoded_key(bytes) {
            Ok(key) => Ok(IdentityView { key, persist: false }),
            Err(e) => Err(e),
        },
        None => Ok(IdentityView { key: fresh, persist: true }),
    }
}

/// Settles which key to run with.
pub fn settle(on_disk: &Option<Vec<u8>>, fresh: SecretKeyBytes) -> (r: Result<
    Identity,
    IdentityError,
>)
    ensures
        identity_result(r) == settled(content_of(*on_disk), fresh@),
{
    match on_disk {
        Some(bytes) => match decode_key(bytes.as_slice()) {
            Ok(key) => Ok(Identity { key, persist: false }),
            Err(e) => Err(e),
        },
        None => Ok(Identity { key: fresh, persist: true }),
    }
}

/// Takes the key in the content of the key file, or makes a fresh one where the
/// file is missing.
pub fn load_or_generate_at(on_disk: &Option<Vec<u8>>) -> (r: Result<Identity, IdentityError>)
    ensures
        match content_of(*on_disk) {
            Some(bytes) => match decoded_key(bytes) {
                Ok(key) => identity_result(r) == Ok::<IdentityView, IdentityFault>(
                    IdentityView { key, persist: false },
                ),
                Err(e) => identity_result(r) == Err::<IdentityView, IdentityFault>(e),
            },
            None => r matches Ok(identity) && identity.persist,
        },
{
    match on_disk {
        Some(bytes) => match decode_key(bytes.as_slice()) {
            Ok(key) => settle(on_disk, key),
            Err(e) => Err(e),
        },
        None => settle(on_disk, generate_key()),
    }
}

/// The public id of a key.
pub fn node_id(secret: &SecretKeyBytes) -> (id: EndpointId)
    ensures
        id@ == public_bytes(secret@),
        is_public_key(id@),
{
    public_of(secret)
}

/// The text of a key's public id. Peers parse it back to the id.
pub fn node_id_text(secret: &SecretKeyBytes) -> (text: String)
    ensures
        text@ == lower_hex(public_bytes(secret@)),
        iroh_id(text@) == Some(public_bytes(secret@)),
        endpoint_id(text@) == Some(public_bytes(secret@)),
{
    endpoint_text(&public_of(secret))
}

/// The z-base-32 text of a key's public id. It parses back to the id.
pub fn node_id_z32(secret: &SecretKeyBytes) -> (text: String)
    ensures
        text@ == z32_text(public_bytes(secret@)),
        endpoint_id(text@) == Some(public_bytes(secret@)),
{
    match endpoint_z32(&public_of(secret)) {
        Some(text) => text,
        None => String::new(),
    }
}

/// A node keeps its key: what was written for a fresh key is the same key when it
/// is read again, and the file is not written a second time.
pub proof fn law_identity_is_kept(fresh: Seq<u8>, other: Seq<u8>)
    requires
        fresh.len() == 32,
    ensures
        settled(None, fresh) == Ok::<IdentityView, IdentityFault>(
            IdentityView { key: fresh, persist: true },
        ),
        settled(Some(fresh), other) == Ok::<IdentityView, IdentityFault>(
            IdentityView { key: fresh, persist: false },
        ),
{
}

/// A key file that exists is never written over, whatever it holds.
pub proof fn law_key_file_is_not_overwritten(content: Seq<u8>, fresh: Seq<u8>)
    ensures
        settled(Some(content), fresh) matches Ok(identity) ==> !identity.persist,
{
}

/// A key file holds 32 bytes, which are the key; a file of another length is refused
/// with its length, and no fresh key takes its place.
pub proof fn law_key_file_holds_the_key(content: Seq<u8>, fresh: Seq<u8>)
    ensures
        content.len() == 32 ==> (settled(Some(content), fresh) matches Ok(identity) && identity.key
            == content),
        content.len() != 32 ==> settled(Some(content), fresh) == Err::<IdentityView, IdentityFault>(
            IdentityFault::BadLength(content.len()),
        ),
        settled(None, fresh) matches Ok(identity) && identity.key == fresh && identity.persist,
{
}

/// The message of an error holds the path, or the length, that is at fault.
pub proof fn law_error_names_the_fault(fault: IdentityFault)
    ensures
        match fault {
            IdentityFault::NoParent(path) => crate::text::contains_seq(fault.text(), path),
            IdentityFault::BadLength(n) => crate::text::contains_seq(fault.text(), decimal(n)),
            IdentityFault::NoConfigDir => true,
        },
{
    match fault {
        IdentityFault::NoParent(path) => {
            crate::text::lemma_middle_is_contained("identity key path has no parent: "@, path, ""@);
        },
        IdentityFault::BadLength(n) => {
            crate::text::lemma_middle_is_contained(
                "identity key must be exactly 32 bytes, got "@,
                decimal(n),
                ""@,
            );
        },
        IdentityFault::NoConfigDir => {},
    }
}

} // verus!
