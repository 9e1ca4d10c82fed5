//! The peer's identity and the files that hold it: the key file (the keypair's
//! protobuf encoding) and the peer-id file (the peer's base58 text).

use vstd::prelude::*;

use libp2p::identity::Keypair;
use libp2p::PeerId;

use crate::address::{peer_id_base58, peer_id_to_base58};

verus! {

/// A keypair of libp2p, carried through unchanged.
#[verifier::external_type_specification]
#[verifier::external_body]
pub struct ExKeypair(Keypair);

/// The peer of a keypair: `to_peer_id` of its public key.
pub uninterp spec fn keypair_peer(key: Keypair) -> PeerId;

/// The key-file encoding of a keypair: `Keypair::to_protobuf_encoding`.
pub uninterp spec fn keypair_encoding(key: Keypair) -> Seq<u8>;

/// The peer of the keypair that the bytes of a key file encode
/// (`Keypair::from_protobuf_encoding`, then `to_peer_id` of its public key), or
/// `None` where the bytes encode no keypair.
pub uninterp spec fn identity_peer(encoding: Seq<u8>) -> Option<PeerId>;

/// Decodes a key file with `Keypair::from_protobuf_encoding` and takes the peer of
/// the keypair's public key. The result is named: decoding is a function of the
/// bytes alone.
#[verifier::external_body]
fn decode_keypair(bytes: &Vec<u8>) -> (identity: Option<(Keypair, PeerId)>)
    ensures
        match identity {
            Some((key, id)) => identity_peer(bytes@) == Some(id) && keypair_peer(key) == id,
            None => identity_peer(bytes@) is None,
        },
{
    let key = Keypair::from_protobuf_encoding(bytes).ok()?;
    let id = key.public().to_peer_id();
    Some((key, id))
}

/// Encodes a keypair with `Keypair::to_protobuf_encoding`, with the peer of its
/// public key. This build compiles Ed25519 keys alone, whose encoding does not
/// fail (only RSA keys refuse to encode). Decoding the encoding gives back a
/// keypair of the same peer: the Ed25519 encoding holds the secret and public key
/// bytes, which `from_protobuf_encoding` reads back.
#[verifier::external_body]
fn encode_keypair(key: &Keypair) -> (encoded: Option<(Vec<u8>, PeerId)>)
    ensures
        encoded is Some,
        encoded matches Some((bytes, id)) ==> bytes@ == keypair_encoding(*key) && id == keypair_peer(*key)
            && identity_peer(bytes@) == Some(id),
{
    let bytes = key.to_protobuf_encoding().ok()?;
    Some((bytes, key.public().to_peer_id()))
}

/// The text holds a path separator of some target: `/`, or a backslash on Windows.
pub open spec fn has_separator(text: Seq<char>) -> bool {
    text.contains('/') || text.contains('\\')
}

/// The extension of a path (`Path::extension`), by the path rules of the target
/// the library is built for.
pub uninterp spec fn path_extension(path: Seq<char>) -> Option<Seq<char>>;

/// A path with its extension set (`PathBuf::set_extension`), by the path rules of
/// the target the library is built for.
pub uninterp spec fn path_with_extension(path: Seq<char>, extension: Seq<char>) -> Seq<char>;

/// The extension of a path: `Path::extension`. The extension of a path made from
/// text is text.
#[verifier::external_body]
fn extension_of(path: &str) -> (extension: Option<String>)
    ensures
        match extension {
            Some(e) => path_extension(path@) == Some(e@),
            None => path_extension(path@) is None,
        },
{
    std::path::Path::new(path).extension().map(|e| e.to_string_lossy().into_owned())
}

/// A path with its extension set: `PathBuf::set_extension`, which panics where
/// the extension holds a path separator. A path made from text stays text.
#[verifier::external_body]
fn with_extension(path: &str, extension: &str) -> (changed: String)
    requires
        !has_separator(extension@),
    ensures
        changed@ == path_with_extension(path@, extension@),
{
    let mut changed = std::path::PathBuf::from(path);
    changed.set_extension(extension);
    changed.to_string_lossy().into_owned()
}

/// The file of an identity with the given extension: the path itself where it has
/// that extension already, the path with that extension otherwise.
pub open spec fn identity_file(path: Seq<char>, extension: Seq<char>) -> Seq<char> {
    if path_extension(path) == Some(extension) {
        path
    } else {
        path_with_extension(path, extension)
    }
}

/// The file of an identity with the given extension (see `identity_file`).
pub fn identity_file_path(path: &str, extension: &str) -> (file: String)
    requires
        !has_separator(extension@),
    ensures
        file@ == identity_file(path@, extension@),
{
    let wanted = String::from_str(extension);
    match extension_of(path) {
        Some(current) => {
            if current == wanted {
                return String::from_str(path);
            }
        },
        None => {},
    }
    with_extension(path, extension)
}

/// The key file and the peer-id file of the identity at `path`: `path` with the
/// extensions `key` and `peerid`, each unless the path has it already.
pub fn identity_paths(path: &str) -> (paths: (String, String))
    ensures
        paths.0@ == identity_file(path@, "key"@),
        paths.1@ == identity_file(path@, "peerid"@),
{
    proof {
        reveal_strlit("key");
        reveal_strlit("peerid");
        assert(!"key"@.contains('/') && !"key"@.contains('\\')) by {
            assert forall|i: int| 0 <= i < "key"@.len() implies "key"@[i] != '/' && "key"@[i] != '\\' by {}
        }
        assert(!"peerid"@.contains('/') && !"peerid"@.contains('\\')) by {
            assert forall|i: int| 0 <= i < "peerid"@.len() implies "peerid"@[i] != '/' && "peerid"@[i] != '\\' by {}
        }
    }
    (identity_file_path(path, "key"), identity_file_path(path, "peerid"))
}

/// Why an identity could not be read.
#[derive(Clone, Copy, Debug, PartialEq, Eq, Structural)]
pub enum IdentityError {
    /// The key file does not hold a keypair.
    Decoding,
}

/// The keypair a key file holds, with its peer; a decoding error where the
/// bytes encode no keypair.
pub fn identity_from_key_file(bytes: &Vec<u8>) -> (identity: Result<(Keypair, PeerId), IdentityError>)
    ensures
        match identity {
            Ok((key, id)) => identity_peer(bytes@) == Some(id) && keypair_peer(key) == id,
            Err(e) => identity_peer(bytes@) is None && e == IdentityError::Decoding,
        },
{
    match decode_keypair(bytes) {
        Some(identity) => Ok(identity),
        None => Err(IdentityError::Decoding),
    }
}

/// What the two files of a new identity hold: the key file's bytes (the
/// keypair's encoding, which decodes back to a keypair of the same peer) and the
/// text of the keypair's peer.
pub fn identity_files(key: &Keypair) -> (files: (Vec<u8>, String))
    ensures
        files.0@ == keypair_encoding(*key),
        identity_peer(files.0@) == Some(keypair_peer(*key)),
        files.1@ == peer_id_base58(keypair_peer(*key)),
{
    let (encoding, id) = encode_keypair(key).unwrap();
    let text = peer_id_to_base58(&id);
    (encoding, text)
}

/// A key read back from the key file of a new identity has that identity's
/// peer: the local peer stays the same across restarts.
pub proof fn lemma_identity_read_back(written: Keypair, encoding: Seq<u8>, read: Keypair, id: PeerId)
    requires
        identity_peer(encoding) == Some(keypair_peer(written)),
        identity_peer(encoding) == Some(id),
        keypair_peer(read) == id,
    ensures
        keypair_peer(read) == keypair_peer(written),
{
}

} // verus!
