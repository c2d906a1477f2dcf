//! What a device announces about itself for service discovery.
use vstd::prelude::*;
use vstd::string::*;
use vstd::utf8::encode_utf8;

use crate::config::ClientConfig;
use crate::crypto::{hex_lower, sha256, sha256_of, to_hex};

verus! {

/// Key/value pairs of a service's TXT record.
#[derive(Debug, Clone)]
pub struct TxtRecord(pub Vec<(String, String)>);

/// A service to announce.
#[derive(Debug, Clone)]
pub struct ServiceAnnouncement {
    /// For example `_myapp._tcp.local.`.
    pub service_type: String,
    /// For example `My Host Instance`.
    pub instance_name: String,
    /// For example `myhost.local.`.
    pub host_name: String,
    pub ip_addr: String,
    pub port: u16,
    pub txt: Option<TxtRecord>,
}

/// `s` as a fully qualified name: with a trailing dot.
pub open spec fn dotted(s: Seq<char>) -> Seq<char> {
    if s.len() > 0 && s.last() == '.' {
        s
    } else {
        s.push('.')
    }
}

/// Appends a dot unless `s` already ends with one.
pub fn ensure_dot(s: &str) -> (r: String)
    ensures
        r@ == dotted(s@),
{
    let n = s.unicode_len();
    let mut out = String::from_str(s);
    if n > 0 && s.get_char(n - 1) == '.' {
        return out;
    }
    proof {
        reveal_strlit(".");
    }
    out.append(".");
    out
}

/// The account hash announced for discovery filtering: the hex of the first
/// 8 bytes of the SHA-256 of the account name.
pub fn compute_account_hash(account: &str) -> (r: String)
    ensures
        r@ == hex_lower(sha256_of(encode_utf8(account@)).take(8)),
{
    let digest = sha256(account.as_bytes());
    let head = vstd::slice::slice_subrange(digest.as_slice(), 0, 8);
    to_hex(head)
}

/// The announcement of this device at `ip_addr:port`: instance named by the
/// device id, host `<device id>.local.`, and TXT entries for the account
/// hash, the device id and the identity fingerprint.
pub fn device_announcement(cfg: &ClientConfig, fingerprint: String, ip_addr: String, port: u16) -> (r:
    ServiceAnnouncement)
    ensures
        r.service_type@ == cfg.service_type@,
        r.instance_name@ == cfg.device_id@,
        r.host_name@ == cfg.device_id@ + ".local."@,
        r.ip_addr@ == ip_addr@,
        r.port == port,
        r.txt matches Some(t) && t.0@.len() == 3 && t.0@[0].0@ == "acct_hash"@ && t.0@[0].1@
            == cfg.account_hash@ && t.0@[1].0@ == "dev_id"@ && t.0@[1].1@ == cfg.device_id@
            && t.0@[2].0@ == "fp"@ && t.0@[2].1@ == fingerprint@,
{
    let mut host = cfg.device_id.clone();
    host.append(".local.");
    let mut txt: Vec<(String, String)> = Vec::new();
    txt.push((String::from_str("acct_hash"), cfg.account_hash.clone()));
    txt.push((String::from_str("dev_id"), cfg.device_id.clone()));
    txt.push((String::from_str("fp"), fingerprint));
    ServiceAnnouncement {
        service_type: cfg.service_type.clone(),
        instance_name: cfg.device_id.clone(),
        host_name: host,
        ip_addr,
        port,
        txt: Some(TxtRecord(txt)),
    }
}

} // verus!
