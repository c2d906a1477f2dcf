//! Client settings: where data lives, how files are cut, and how the device
//! presents itself on the network.
use vstd::prelude::*;
use vstd::string::*;

verus! {

/// The default chunk size: 256 KiB.
pub const DEFAULT_CHUNK_SIZE: usize = 256 * 1024;

/// The default listening port.
pub const DEFAULT_LISTEN_PORT: u16 = 9876;

/// Client settings.
#[derive(Debug, Clone)]
pub struct ClientConfig {
    /// Directory for chunks, manifests and local cache.
    pub data_dir: String,
    /// Size of the windows a file is cut into.
    pub chunk_size: usize,
    /// Port to listen on for incoming transfers.
    pub listen_port: u16,
    /// Service type announced and browsed for.
    pub service_type: String,
    /// Account hash used to filter discovered devices.
    pub account_hash: String,
    /// Device identifier.
    pub device_id: String,
}

impl ClientConfig {
    /// The default settings with data kept in `data_dir`: 256 KiB chunks,
    /// port 9876, service `_openshare._tcp.local.`, no account or device id.
    pub fn with_data_dir(data_dir: String) -> (r: ClientConfig)
        ensures
            r.data_dir@ == data_dir@,
            r.chunk_size == DEFAULT_CHUNK_SIZE,
            r.listen_port == DEFAULT_LISTEN_PORT,
            r.service_type@ == "_openshare._tcp.local."@,
            r.account_hash@ == Seq::<char>::empty(),
            r.device_id@ == Seq::<char>::empty(),
    {
        ClientConfig {
            data_dir,
            chunk_size: DEFAULT_CHUNK_SIZE,
            listen_port: DEFAULT_LISTEN_PORT,
            service_type: String::from_str("_openshare._tcp.local."),
            account_hash: String::new(),
            device_id: String::new(),
        }
    }

    /// The same settings with the account hash and device id replaced.
    pub fn with_account(self, account_hash: String, device_id: String) -> (r: ClientConfig)
        ensures
            r.account_hash@ == account_hash@,
            r.device_id@ == device_id@,
            r.data_dir == self.data_dir,
            r.chunk_size == self.chunk_size,
            r.listen_port == self.listen_port,
            r.service_type == self.service_type,
    {
        let mut cfg = self;
        cfg.account_hash = account_hash;
        cfg.device_id = device_id;
        cfg
    }
}

} // verus!
