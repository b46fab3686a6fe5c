//! Server configuration as plain data, with the defaults the server starts
//! from and the freshly drawn replication identity. Reading configuration
//! files and command-line flags is the surrounding program's business; it
//! fills these structures in.

use vstd::prelude::*;

verus! {

/// Command-line options, already tokenized.
pub struct Cli {
    pub port: Option<u16>,
    pub replicaof: Option<Vec<String>>,
    pub rdb_path: Option<String>,
}

pub struct ServerConf {
    pub port: u16,
    /// The 40-character replication identity drawn at startup.
    pub run_id: Vec<u8>,
    pub expire_check_interval_secs: u64,
    pub log_level: String,
}

pub struct SecurityConf {
    pub requirepass: Option<Vec<u8>>,
}

pub struct ReplicationConf {
    pub replicaof: Option<String>,
    pub max_replicate: u64,
    pub masterauth: Option<Vec<u8>>,
}

pub struct Interval {
    pub seconds: u64,
    pub changes: u64,
}

pub struct RDBConf {
    pub enable: bool,
    pub file_path: String,
    pub interval: Option<Interval>,
    pub version: u32,
    pub enable_checksum: bool,
}

/// When the append-only log is forced to disk.
#[derive(Debug, PartialEq, Eq, Structural, Clone, Copy)]
pub enum AppendFSync {
    Always,
    EverySec,
    No,
}

pub struct AOFConf {
    pub enable: bool,
    pub use_rdb_preamble: bool,
    pub file_path: String,
    pub append_fsync: AppendFSync,
}

pub struct Conf {
    pub server: ServerConf,
    pub security: SecurityConf,
    pub replication: ReplicationConf,
    pub rdb: RDBConf,
    pub aof: AOFConf,
}

pub open spec fn is_alnum(b: u8) -> bool {
    (48 <= b <= 57) || (65 <= b <= 90) || (97 <= b <= 122)
}

/// Relies on rand::thread_rng sampled through rand::distributions::
/// Alphanumeric: forty bytes, each an ASCII letter or digit.
#[verifier::external_body]
fn random_alnum_40() -> (r: Vec<u8>)
    ensures
        r@.len() == 40,
        forall|i: int| 0 <= i < r@.len() ==> is_alnum(#[trigger] r@[i]),
{
    rand::Rng::sample_iter(rand::thread_rng(), &rand::distributions::Alphanumeric).take(
        40,
    ).collect()
}

/// A well-formed replication identity.
pub open spec fn run_id_wf(s: Seq<u8>) -> bool {
    s.len() == 40 && forall|i: int| 0 <= i < s.len() ==> is_alnum(#[trigger] s[i])
}

impl Conf {
    /// The configuration the server starts from before any file or flag is
    /// applied: the default port, checksummed snapshots, no authentication,
    /// and a fresh replication identity.
    pub fn new() -> (r: Conf)
        ensures
            run_id_wf(r.server.run_id@),
            r.server.port == 6379,
            r.server.expire_check_interval_secs == 60,
            r.security.requirepass is None,
            r.replication.replicaof is None,
            r.replication.max_replicate == 16,
            r.replication.masterauth is None,
            r.rdb.enable == false,
            r.rdb.version == 1,
            r.rdb.enable_checksum == true,
            r.aof.enable == false,
            r.aof.use_rdb_preamble == false,
            r.aof.append_fsync == AppendFSync::EverySec,
    {
        Conf {
            server: ServerConf {
                port: 6379,
                run_id: random_alnum_40(),
                expire_check_interval_secs: 60,
                log_level: String::new(),
            },
            security: SecurityConf { requirepass: None },
            replication: ReplicationConf {
                replicaof: None,
                max_replicate: 16,
                masterauth: None,
            },
            rdb: RDBConf {
                enable: false,
                file_path: String::new(),
                interval: None,
                version: 1,
                enable_checksum: true,
            },
            aof: AOFConf {
                enable: false,
                use_rdb_preamble: false,
                file_path: String::new(),
                append_fsync: AppendFSync::EverySec,
            },
        }
    }

    /// A fresh replication identity: forty random alphanumeric characters.
    pub fn generate_run_id() -> (r: Vec<u8>)
        ensures
            run_id_wf(r@),
    {
        random_alnum_40()
    }
}

} // verus!
