use libp2p::identity::Keypair;
use libp2p_kad_fastboot::identity::{identity_file_path, identity_files, identity_from_key_file, identity_paths, IdentityError};


#[test]
fn identity_paths_add_missing_extensions() {
    assert_eq!(identity_paths("./local"), ("./local.key".to_string(), "./local.peerid".to_string()));
    assert_eq!(identity_paths("node.key"), ("node.key".to_string(), "node.peerid".to_string()));
    assert_eq!(identity_paths("node.peerid"), ("node.key".to_string(), "node.peerid".to_string()));
    assert_eq!(identity_paths("dir.d/node.txt"), ("dir.d/node.key".to_string(), "dir.d/node.peerid".to_string()));
}

#[test]
fn identity_file_path_keeps_a_present_extension() {
    assert_eq!(identity_file_path("a/b.key", "key"), "a/b.key");
    assert_eq!(identity_file_path("a/b", "key"), "a/b.key");
}

#[test]
fn identity_files_decode_back_to_the_same_peer() {
    let key = Keypair::generate_ed25519();
    let peer = key.public().to_peer_id();
    let (encoding, text) = identity_files(&key);
    assert_eq!(encoding, key.to_protobuf_encoding().unwrap());
    assert_eq!(text, peer.to_string());
    let (decoded, id) = identity_from_key_file(&encoding).unwrap();
    assert_eq!(id, peer);
    assert_eq!(decoded.public().to_peer_id(), peer);
}

#[test]
fn the_peer_stays_the_same_across_restarts() {
    let key = Keypair::generate_ed25519();
    let (encoding, _) = identity_files(&key);
    let (first, _) = identity_from_key_file(&encoding).unwrap();
    let (second, _) = identity_from_key_file(&encoding).unwrap();
    assert_eq!(first.public(), key.public());
    assert_eq!(second.public(), first.public());
}

#[test]
fn a_key_file_of_garbage_is_a_decoding_error() {
    assert_eq!(identity_from_key_file(&vec![1, 2, 3]).err(), Some(IdentityError::Decoding));
    assert_eq!(identity_from_key_file(&vec![]).err(), Some(IdentityError::Decoding));
}
