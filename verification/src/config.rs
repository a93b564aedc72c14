//! The configuration the bridge runs with.

use vstd::prelude::*;
use vstd::string::*;

verus! {

/// The root of the configuration: one table per concern.
pub struct Config {
    pub osc: Osc,
    pub logging: Logging,
    pub firmware: Firmware,
}

/// Where OSC traffic is received and sent.
pub struct Osc {
    pub listen_port: u16,
    pub send_port: u16,
    pub ip_address: String,
}

/// How much is logged.
pub struct Logging {
    pub level: String,
}

/// Which device backend is driven, and where it is reached.
pub struct Firmware {
    pub firmware: String,
    pub api_endpoint: String,
}

/// Whether a configuration holds the values a fresh installation starts with.
pub open spec fn is_default(config: Config) -> bool {
    &&& config.osc.listen_port == 9001
    &&& config.osc.send_port == 9000
    &&& config.osc.ip_address@ == "127.0.0.1"@
    &&& config.logging.level@ == "Info"@
    &&& config.firmware.firmware@ == "legacy"@
    &&& config.firmware.api_endpoint@ == "openshock.local"@
}

/// The configuration of a fresh installation.
pub fn default_config() -> (config: Config)
    ensures
        is_default(config),
{
    Config {
        osc: Osc {
            listen_port: 9001,
            send_port: 9000,
            ip_address: String::from_str("127.0.0.1"),
        },
        logging: Logging { level: String::from_str("Info") },
        firmware: Firmware {
            firmware: String::from_str("legacy"),
            api_endpoint: String::from_str("openshock.local"),
        },
    }
}

/// The configuration in force: the one that was loaded, or the defaults where
/// none was found.
pub fn get_config(loaded: Option<Config>) -> (config: Config)
    ensures
        loaded is Some ==> config == loaded->0,
        loaded is None ==> is_default(config),
{
    match loaded {
        Some(config) => config,
        None => default_config(),
    }
}

} // verus!
