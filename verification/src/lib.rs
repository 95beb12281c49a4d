//! Core logic of a game-version launch orchestration engine: descriptor
//! model and platform rules, loader profile merging, classpath and native
//! extraction planning, argument templating, asset synchronization planning,
//! and child-process supervision decisions.
pub mod args;
pub mod auth;
pub mod details;
pub mod errors;
pub mod instances;
pub mod launch;
pub mod librarian;
pub mod loaders;
pub mod assets;
pub mod manifest;
pub mod modmeta;
pub mod natives;
pub mod process;
pub mod strutil;
