pub mod text;
pub mod ip;
pub mod address;
pub mod server;
pub mod server_data;
pub mod settings;
pub mod plan;
pub mod firewall;
pub mod idset;
pub mod latency;
pub mod canonical;
pub mod session;
