//! Configuration shapes. Reading them from a file is the embedding
//! program's business; the library holds the plain values its checks
//! work on.

use vstd::prelude::*;

verus! {

#[derive(Clone, Copy, Debug)]
pub enum LogLevel {
    DEBUG,
    INFO,
    WARN,
    ERROR,
    FATAL,
}

#[derive(Clone, Debug)]
pub struct Log {
    pub writers: String,
    pub logger_level: LogLevel,
    pub logger_dir: String,
    pub log_rotate_date: u32,
    pub log_rotate_size: u64,
}

#[derive(Clone, Debug)]
pub enum Tls {
    TlsItem(TlsItem),
    TlsItems(Vec<TlsItem>),
}

#[derive(Clone, Debug)]
pub struct TlsItem {
    pub port: u16,
    pub cert: String,
    pub key: String,
}

#[derive(Clone, Copy, Debug)]
pub struct Ratelimit {
    pub enable: bool,
    pub max_rate: u64,
}

#[derive(Clone, Debug)]
pub struct Stats {
    pub enable: bool,
    pub token: Option<String>,
}

#[derive(Clone, Copy, Debug)]
pub struct Compression {
    pub enable: bool,
}

#[derive(Clone, Debug)]
pub enum Port {
    Port(u16),
    Ports(Vec<u16>),
}

#[derive(Clone, Debug)]
#[allow(non_snake_case)]
pub struct Security {
    pub enable: bool,
    pub maxTimeStampAge: u64,
    pub token: String,
}

#[derive(Clone, Debug)]
pub struct Config {
    pub log: Log,
    pub port: Option<Port>,
    pub tls: Option<Tls>,
    pub ratelimit: Option<Ratelimit>,
    pub stats: Option<Stats>,
    pub compression: Option<Compression>,
    pub security: Option<Security>,
}

/// Command-line arguments: the configuration file's path.
#[derive(Clone, Debug)]
pub struct Arguments {
    pub path: String,
}

/// Whether a request may use the observability surface: the stats block
/// must exist and be enabled, and when it names a token the request must
/// present exactly that token.
pub fn stats_access_allowed(token: &Option<String>, stats: &Option<Stats>) -> (r: bool)
    ensures
        r == (match *stats {
            Some(st) => st.enable && (match st.token {
                Some(expected) => (*token) matches Some(t) && t@ == expected@,
                None => true,
            }),
            None => false,
        }),
{
    match stats.as_ref() {
        Some(st) => {
            if !st.enable {
                return false;
            }
            match st.token.as_ref() {
                Some(expected) => match token.as_ref() {
                    Some(t) => t.as_str().eq(expected.as_str()),
                    None => false,
                },
                None => true,
            }
        },
        None => false,
    }
}

} // verus!
