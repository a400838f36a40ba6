//! The verified core of a federated music player: text handling, share links,
//! device synchronisation, shared sessions, the catalog of peers, the local
//! library and the rules of the playback engine.

pub mod base64url;
pub mod cli;
pub mod content_id;
pub mod devices;
pub mod digest;
pub mod federation;
pub mod framing;
pub mod hex;
pub mod jam;
pub mod jam_laws;
pub mod keyed;
pub mod library;
pub mod lists;
pub mod media;
pub mod names;
pub mod player;
pub mod share;
pub mod text;
pub mod text_laws;
