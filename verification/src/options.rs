//! The options of the peer program and their defaults.

use vstd::prelude::*;

use crate::address::IpAddr;

verus! {

/// The default file of the saved routing table.
pub const KAD_STATE_PATH: &'static str = "./kademlia_state.json";

/// The default path of the local key, without extension.
pub const LOCAL_KEY_PATH: &'static str = "./local";

/// The options of the peer program.
pub struct Options {
    /// Addresses to listen on.
    pub listen_addresses: Vec<IpAddr>,
    /// If known, the external addresses of this node, announced to other peers.
    pub external_addresses: Vec<IpAddr>,
    /// The path to the local key file.
    pub local_key_path: String,
    /// The path to the file of the saved routing table.
    pub kad_state_file: String,
}

impl Options {
    /// The options where none is given: listen on 0.0.0.0, announce nothing, and
    /// the default paths.
    pub fn defaults() -> (options: Options)
        ensures
            options.listen_addresses@ == seq![IpAddr::V4(0)],
            options.external_addresses@ == Seq::<IpAddr>::empty(),
            options.local_key_path@ == LOCAL_KEY_PATH@,
            options.kad_state_file@ == KAD_STATE_PATH@,
    {
        Options {
            listen_addresses: vec![IpAddr::V4(0)],
            external_addresses: Vec::new(),
            local_key_path: String::from_str(LOCAL_KEY_PATH),
            kad_state_file: String::from_str(KAD_STATE_PATH),
        }
    }
}

} // verus!
