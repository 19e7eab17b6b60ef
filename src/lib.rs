//! Acquisition of smart electricity meter readings over a Wi-SUN module:
//! the SKSTACK line protocol, the ECHONET Lite frame and property codecs, and
//! the decisions of the session and acquisition loops.
pub mod frame;
pub mod decimal;
pub mod smart_electric_energy_meter;
pub mod superclass;
pub mod skrxd;
pub mod parser;
pub mod text;
pub mod commands;
pub mod authn;
pub mod active_scan;
pub mod send_receive;
pub mod civil_time;
pub mod measurements;
pub mod receiver;
pub mod connection_settings;
pub mod pairing;
pub mod show;
pub mod record_text;
