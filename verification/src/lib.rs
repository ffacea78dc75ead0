//! Verified core of the thumos phone kernel.
use vstd::prelude::*;

pub mod block;
pub mod board;
pub mod civil;
pub mod error_laws;
pub mod firewall;
pub mod firewall_laws;
pub mod fm_laws;
pub mod fm_radio;
pub mod futex;
pub mod gic;
pub mod gps;
pub mod gps_laws;
pub mod gpt;
pub mod gpt_laws;
pub mod gsm7;
pub mod gsm7_laws;
pub mod harmostes;
pub mod harmostes_laws;
pub mod harmostes_send;
pub mod harmostes_sync;
pub mod heap_stub;
pub mod heorte;
pub mod heorte_alarm;
pub mod heorte_laws;
pub mod heorte_timer;
pub mod http_client;
pub mod http_laws;
pub mod ipc;
pub mod irq;
pub mod json_laws;
pub mod json_mini;
pub mod json_text_laws;
pub mod kardia;
pub mod kardia_laws;
pub mod kconfig;
pub mod kconfig_laws;
pub mod kernel_laws;
pub mod key_laws;
pub mod key_manager;
pub mod keypad;
pub mod keypad_laws;
pub mod kinit;
pub mod kinit_flow;
pub mod kinit_laws;
pub mod kinit_plan;
pub mod matrix_crypto;
pub mod matrix_ids;
pub mod matrix_laws;
pub mod memguard;
pub mod nmea;
pub mod nmea_laws;
pub mod passphrase_laws;
pub mod security;
pub mod security_mode;
pub mod sha256;
pub mod sha256_laws;
pub mod sms;
pub mod text;
pub mod text_laws;

verus! {
} // verus!
