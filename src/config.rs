//! Process configuration and its defaults.

use vstd::prelude::*;
use vstd::string::*;
use crate::decimal::{decimal_value, is_unsigned_decimal, parse_u16, parse_u64};

verus! {

/// Immutable configuration, built once at startup and shared read-only.
#[derive(Debug)]
pub struct Config {
    pub database_url: String,
    pub rpc_url: String,
    pub chain_id: String,
    pub port: u16,
    pub webhook_secret: String,
    pub reservation_ttl_secs: u64,
}

/// Default chain identifier.
pub open spec fn default_chain_id() -> Seq<char> {
    "SN_SEPOLIA"@
}

impl Config {
    /// Build the configuration from the values of its settings, each absent
    /// or present as text: the store URL, the ledger endpoint and the
    /// webhook secret are required; the chain defaults to "SN_SEPOLIA", the
    /// port to 3001 and the reservation TTL to 120 seconds. The error names
    /// the first setting that is missing or malformed.
    pub fn from_values(
        database_url: Option<String>,
        rpc_url: Option<String>,
        chain_id: Option<String>,
        port: Option<String>,
        webhook_secret: Option<String>,
        reservation_ttl_secs: Option<String>,
    ) -> (r: Result<Config, String>)
        ensures
            r matches Ok(c) ==> {
                &&& database_url == Some(c.database_url)
                &&& rpc_url == Some(c.rpc_url)
                &&& webhook_secret == Some(c.webhook_secret)
                &&& (match chain_id {
                    Some(v) => c.chain_id == v,
                    None => c.chain_id@ == default_chain_id(),
                })
                &&& (match port {
                    Some(v) => is_unsigned_decimal(v@) && c.port == decimal_value(v@),
                    None => c.port == 3001,
                })
                &&& (match reservation_ttl_secs {
                    Some(v) => is_unsigned_decimal(v@) && c.reservation_ttl_secs == decimal_value(
                        v@,
                    ),
                    None => c.reservation_ttl_secs == 120,
                })
            },
            database_url is None ==> r == Err::<Config, String>(r->Err_0) && r->Err_0@
                == "DATABASE_URL must be set"@,
            r is Err ==> database_url is None || rpc_url is None || webhook_secret is None
                || (port matches Some(v) && !(is_unsigned_decimal(v@) && decimal_value(v@)
                <= u16::MAX)) || (reservation_ttl_secs matches Some(v) && !(is_unsigned_decimal(
                v@,
            ) && decimal_value(v@) <= u64::MAX)),
    {
        let database_url = match database_url {
            Some(v) => v,
            None => {
                return Err(String::from_str("DATABASE_URL must be set"));
            },
        };
        let rpc_url = match rpc_url {
            Some(v) => v,
            None => {
                return Err(String::from_str("RPC_URL must be set"));
            },
        };
        let chain_id = match chain_id {
            Some(v) => v,
            None => String::from_str("SN_SEPOLIA"),
        };
        let port = match port {
            Some(v) => match parse_u16(v.as_str()) {
                Some(p) => p,
                None => {
                    return Err(String::from_str("PORT must be a valid u16"));
                },
            },
            None => 3001,
        };
        let webhook_secret = match webhook_secret {
            Some(v) => v,
            None => {
                return Err(String::from_str("WEBHOOK_SECRET must be set"));
            },
        };
        let reservation_ttl_secs = match reservation_ttl_secs {
            Some(v) => match parse_u64(v.as_str()) {
                Some(t) => t,
                None => {
                    return Err(String::from_str("RESERVATION_TTL_SECS must be a valid u64"));
                },
            },
            None => 120,
        };
        Ok(Config { database_url, rpc_url, chain_id, port, webhook_secret, reservation_ttl_secs })
    }
}

} // verus!
