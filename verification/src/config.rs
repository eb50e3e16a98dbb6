//! Settings of the simulator and their built-in defaults.

use vstd::prelude::*;
use vstd::string::StringExecFns;

verus! {

/// All settings.
#[derive(Debug, Clone)]
pub struct AppConfig {
    pub server: ServerConfig,
    pub smpp: SmppConfig,
    pub log: LogConfig,
    pub lifecycle: LifecycleConfig,
    pub mo_service: MoServiceConfig,
}

/// Where the web interface listens.
#[derive(Debug, Clone)]
pub struct ServerConfig {
    pub host: String,
    pub port: u16,
}

/// The SMPP listener and the accounts that may bind.
#[derive(Debug, Clone)]
pub struct SmppConfig {
    /// System id of the default account.
    pub system_id: String,
    /// Password of the default account.
    pub password: String,
    pub port: u16,
    pub max_sessions: usize,
    /// Additional accounts, in the order in which they are tried.
    pub accounts: Vec<SmppAccount>,
    /// Protocol mode: "5.0" or "3.4".
    pub version: String,
}

/// One additional account that may bind.
#[derive(Debug, Clone)]
pub struct SmppAccount {
    pub system_id: String,
    pub password: String,
}

/// Timing of the delivery receipts and the share of each final state.
#[derive(Debug, Clone)]
pub struct LifecycleConfig {
    pub message_state_check_frequency_ms: u64,
    pub max_time_enroute_ms: u64,
    pub discard_from_queue_after_ms: u64,
    pub percent_delivered: u8,
    pub percent_undeliverable: u8,
    pub percent_accepted: u8,
    pub percent_rejected: u8,
    pub delivery_receipt_tlv: Option<String>,
}

/// The feed of mobile-originated messages.
#[derive(Debug, Clone)]
pub struct MoServiceConfig {
    pub enabled: bool,
    pub delivery_messages_per_minute: u32,
    pub file_path: String,
}

#[derive(Debug, Clone)]
pub struct LogConfig {
    pub level: String,
}

impl LifecycleConfig {
    /// The sum of the four shares.
    pub open spec fn percent_total(&self) -> int {
        self.percent_delivered + self.percent_undeliverable + self.percent_accepted
            + self.percent_rejected
    }

    /// Whether the four shares add up to at most 100, so that each final
    /// state can be drawn with its share.
    pub fn percentages_valid(&self) -> (r: bool)
        ensures
            r == (self.percent_total() <= 100),
    {
        let total: u32 = self.percent_delivered as u32 + self.percent_undeliverable as u32
            + self.percent_accepted as u32 + self.percent_rejected as u32;
        total <= 100
    }
}

impl Default for LifecycleConfig {
    fn default() -> (r: Self)
        ensures
            r.message_state_check_frequency_ms == 5000,
            r.max_time_enroute_ms == 10000,
            r.discard_from_queue_after_ms == 60000,
            r.percent_delivered == 90,
            r.percent_undeliverable == 6,
            r.percent_accepted == 2,
            r.percent_rejected == 2,
            r.delivery_receipt_tlv is None,
    {
        LifecycleConfig {
            message_state_check_frequency_ms: 5000,
            max_time_enroute_ms: 10000,
            discard_from_queue_after_ms: 60000,
            percent_delivered: 90,
            percent_undeliverable: 6,
            percent_accepted: 2,
            percent_rejected: 2,
            delivery_receipt_tlv: None,
        }
    }
}

impl Default for MoServiceConfig {
    fn default() -> (r: Self)
        ensures
            !r.enabled,
            r.delivery_messages_per_minute == 0,
            r.file_path@ == "deliver_messages.csv"@,
    {
        MoServiceConfig {
            enabled: false,
            delivery_messages_per_minute: 0,
            file_path: String::from_str("deliver_messages.csv"),
        }
    }
}

impl Default for ServerConfig {
    fn default() -> (r: Self)
        ensures
            r.host@ == "0.0.0.0"@,
            r.port == 8080,
    {
        ServerConfig { host: String::from_str("0.0.0.0"), port: 8080 }
    }
}

impl Default for SmppConfig {
    fn default() -> (r: Self)
        ensures
            r.system_id@ == "smppclient1"@,
            r.password@ == "password"@,
            r.port == 2775,
            r.max_sessions == 50,
            r.accounts@.len() == 0,
            r.version@ == "5.0"@,
    {
        SmppConfig {
            system_id: String::from_str("smppclient1"),
            password: String::from_str("password"),
            port: 2775,
            max_sessions: 50,
            accounts: Vec::new(),
            version: String::from_str("5.0"),
        }
    }
}

impl Default for LogConfig {
    fn default() -> (r: Self)
        ensures
            r.level@ == "info"@,
    {
        LogConfig { level: String::from_str("info") }
    }
}

impl Default for AppConfig {
    /// The built-in settings, which a configuration file and the environment
    /// may override.
    fn default() -> (r: Self)
        ensures
            r.server.host@ == "0.0.0.0"@,
            r.server.port == 8080,
            r.smpp.system_id@ == "smppclient1"@,
            r.smpp.password@ == "password"@,
            r.smpp.port == 2775,
            r.smpp.max_sessions == 50,
            r.smpp.accounts@.len() == 0,
            r.smpp.version@ == "5.0"@,
            r.log.level@ == "info"@,
            r.lifecycle.message_state_check_frequency_ms == 5000,
            r.lifecycle.max_time_enroute_ms == 10000,
            r.lifecycle.discard_from_queue_after_ms == 60000,
            r.lifecycle.percent_delivered == 90,
            r.lifecycle.percent_undeliverable == 6,
            r.lifecycle.percent_accepted == 2,
            r.lifecycle.percent_rejected == 2,
            r.lifecycle.delivery_receipt_tlv is None,
            !r.mo_service.enabled,
            r.mo_service.delivery_messages_per_minute == 0,
            r.mo_service.file_path@ == "deliver_messages.csv"@,
    {
        AppConfig {
            server: ServerConfig::default(),
            smpp: SmppConfig::default(),
            log: LogConfig::default(),
            lifecycle: LifecycleConfig::default(),
            mo_service: MoServiceConfig::default(),
        }
    }
}

} // verus!
