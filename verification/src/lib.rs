//! Rem Launcher core library: provider-neutral content models, the Modrinth
//! request and response mapping, instance/lockfile bookkeeping, account and
//! server stores, backup and modpack safety rules, all with checked contracts.

pub mod text;
pub mod models;
pub mod providers;
pub(crate) mod seqs;
pub mod instances;
pub mod digest;
pub mod archive;
pub mod json;
pub mod install;
pub mod accounts;
pub mod servers;
pub mod backups;
pub mod launch;
pub mod modpacks;
pub mod modrinth;
