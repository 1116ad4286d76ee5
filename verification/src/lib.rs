//! Verified core of the launcher's content, download and server logic.
pub mod content_files;
pub mod downloads;
pub mod drop_classifier;
pub mod file_lock;
pub mod google_ip;
pub mod h2;
pub mod import;
pub mod lightweight;
pub mod missing_content;
pub mod model;
pub mod post_upgrade;
pub mod server_modpack;
pub mod server_ports;
pub mod servers;
pub mod terracotta;
pub mod text;
pub mod update_payload;
pub mod updater;
pub mod upgrade;
