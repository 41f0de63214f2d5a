//! Find, explain, and plan the safe removal of installed Linux software.
pub mod text;
pub mod util;
pub mod model;
pub mod cleanup;
pub mod command;
pub mod fingerprint;
pub mod lines;
pub mod paths;
pub mod platform;
pub mod matching;
pub mod preview;
pub mod sorting;
pub mod provenance;
pub mod removal;
pub mod discovery;
pub mod number;
pub mod owner;
pub mod archive;
pub mod appstream;
pub mod session;
pub mod flow;
pub mod json;
pub mod presence;
pub mod history;
pub mod inventory;
pub mod tools;
