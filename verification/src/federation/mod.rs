//! Tracks of other peers and how they are found.
pub mod answer_laws;
pub mod audio;
pub mod capabilities;
pub mod card;
pub mod catalog;
pub mod laws;
pub mod lookup;
pub mod peer_laws;
pub mod play;
pub mod publish;
pub mod search;
pub mod search_laws;
pub mod serve;
pub mod similarity;
pub mod similarity_laws;
pub mod track;
