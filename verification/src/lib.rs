//! Managing the installed add-on artifacts and the base runtime of a game
//! server. The installed set is persisted in a lockfile; adding an
//! artifact resolves its dependencies recursively against a remote
//! catalog, and removing one can sweep the dependencies nothing else
//! requires. Per loader family, a resolver reconstructs download
//! locations from a runtime version and a build token, including the
//! historically irregular naming cutoffs of one family. Downloads are
//! checked against declared digests.
//!
//! The modules hold the decision logic, verified; the surrounding
//! program performs the network and file work and reports the outcomes
//! back. The lockfile is persisted in this crate's own line-oriented
//! document format, defined and proved round-trippable in `codec`; no
//! other lockfile format is read.

pub mod codec;
pub mod digest;
pub mod error;
pub mod fabric;
pub mod forge;
pub mod hangar;
pub mod loader;
pub mod lockfile;
pub mod modrinth;
pub mod neoforge;
pub mod paper;
pub mod plugin;
pub mod project;
pub mod resolver;
pub mod server;
pub mod strutil;
pub mod vanilla;
pub mod version;
