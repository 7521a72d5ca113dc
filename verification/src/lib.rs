//! Verified core logic of the Readymade installer.
pub mod text;
pub mod systemd_ini;
pub mod ini_roundtrip;
pub mod order;
pub mod custom;
pub mod repartcfg;
pub mod repart_output;
pub mod postinstall;
pub mod disks;
pub mod install;
pub mod cfg;
pub mod albius;
pub mod setup;
pub mod util;
pub mod l10n;
pub mod installcustom;
pub mod confirmation;
pub mod state;
pub mod export;
pub mod navigation;
