//! The configuration of the server, with what the environment says of it.

use vstd::prelude::*;
use vstd::string::StringExecFns;

verus! {

pub type ConfigError = String;

/// What the environment holds under a key.
pub enum EnvValue {
    Present(String),
    NotPresent,
    NotUnicode,
}

pub struct Config {
    pub address: String,
}

/// The key under which the environment holds the address.
pub open spec fn address_key_text() -> Seq<char> {
    "SIMPLES_"@ + "ADDRESS"@
}

/// The error for a value under `key` that is no text.
pub open spec fn unparsable(key: Seq<char>) -> Seq<char> {
    "Could not parse config key '"@ + key + "'"@
}

impl Default for Config {
    fn default() -> (config: Config)
        ensures
            config.address@ == "0.0.0.0:3000"@,
    {
        Config { address: String::from_str("0.0.0.0:3000") }
    }
}

impl Config {
    /// The key under which the environment holds the address.
    pub fn address_key() -> (key: String)
        ensures
            key@ == address_key_text(),
    {
        String::from_str("SIMPLES_").concat("ADDRESS")
    }

    /// The configuration with the address that the environment holds under
    /// `address_key()`, or the default where it holds none.
    pub fn from_env(address: EnvValue) -> (result: Result<Config, ConfigError>)
        ensures
            match address {
                EnvValue::Present(value) => result is Ok && result->Ok_0.address@ == value@,
                EnvValue::NotPresent => result is Ok && result->Ok_0.address@ == "0.0.0.0:3000"@,
                EnvValue::NotUnicode => result is Err && result->Err_0@ == unparsable(
                    address_key_text(),
                ),
            },
    {
        let mut config = Config::default();

        match address {
            EnvValue::Present(address) => {
                config.address = address;
            },
            EnvValue::NotPresent => {},
            EnvValue::NotUnicode => {
                let key = Config::address_key();
                return Err(
                    String::from_str("Could not parse config key '").concat(key.as_str()).concat(
                        "'",
                    ),
                );
            },
        }

        Ok(config)
    }
}

} // verus!
