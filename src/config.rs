//! Connection and logging settings: their defaults, and how the values read
//! from a settings file take their place.

use vstd::prelude::*;

verus! {

/// The settings the monitor runs with.
#[derive(Clone, Debug)]
pub struct AppConfig {
    pub port_name: String,
    pub baud_rate: u32,
    pub log_folder: String,
    pub use_tcp: bool,
    pub tcp_host: String,
    pub tcp_port: u16,
}

/// The values a settings file gave; each one that is absent keeps its default.
#[derive(Clone, Debug)]
pub struct ConfigOverrides {
    pub port_name: Option<String>,
    pub baud_rate: Option<u32>,
    pub log_folder: Option<String>,
    pub use_tcp: Option<bool>,
    pub tcp_host: Option<String>,
    pub tcp_port: Option<u16>,
}

pub const DEFAULT_BAUD_RATE: u32 = 115_200;

pub const DEFAULT_TCP_PORT: u16 = 5000;

/// The text an optional setting leaves: the given one, else the current one.
pub open spec fn text_or(given: Option<String>, current: String) -> Seq<char> {
    match given {
        Some(t) => t@,
        None => current@,
    }
}

pub open spec fn value_or<T>(given: Option<T>, current: T) -> T {
    match given {
        Some(v) => v,
        None => current,
    }
}

fn take_text(given: Option<String>, current: String) -> (r: String)
    ensures
        r@ == text_or(given, current),
{
    match given {
        Some(t) => t,
        None => current,
    }
}

impl Default for AppConfig {
    /// Serial port COM3 at 115200 baud, TCP off with 127.0.0.1:5000 ready, logs
    /// under `logs`.
    fn default() -> (r: AppConfig)
        ensures
            r.port_name@ == "COM3"@,
            r.baud_rate == DEFAULT_BAUD_RATE,
            r.log_folder@ == "logs"@,
            !r.use_tcp,
            r.tcp_host@ == "127.0.0.1"@,
            r.tcp_port == DEFAULT_TCP_PORT,
    {
        AppConfig {
            port_name: "COM3".to_owned(),
            baud_rate: DEFAULT_BAUD_RATE,
            log_folder: "logs".to_owned(),
            use_tcp: false,
            tcp_host: "127.0.0.1".to_owned(),
            tcp_port: DEFAULT_TCP_PORT,
        }
    }
}

impl AppConfig {
    /// These settings with each value that `given` holds put in place of the
    /// current one.
    pub fn with_overrides(self, given: ConfigOverrides) -> (r: AppConfig)
        ensures
            r.port_name@ == text_or(given.port_name, self.port_name),
            r.baud_rate == value_or(given.baud_rate, self.baud_rate),
            r.log_folder@ == text_or(given.log_folder, self.log_folder),
            r.use_tcp == value_or(given.use_tcp, self.use_tcp),
            r.tcp_host@ == text_or(given.tcp_host, self.tcp_host),
            r.tcp_port == value_or(given.tcp_port, self.tcp_port),
    {
        AppConfig {
            port_name: take_text(given.port_name, self.port_name),
            baud_rate: match given.baud_rate {
                Some(b) => b,
                None => self.baud_rate,
            },
            log_folder: take_text(given.log_folder, self.log_folder),
            use_tcp: match given.use_tcp {
                Some(u) => u,
                None => self.use_tcp,
            },
            tcp_host: take_text(given.tcp_host, self.tcp_host),
            tcp_port: match given.tcp_port {
                Some(p) => p,
                None => self.tcp_port,
            },
        }
    }
}

} // verus!
