//! The local library.

pub mod artists;
pub mod card_laws;
pub mod change_laws;
pub mod delete;
pub mod edit;
pub mod export;
pub mod import;
pub mod import_laws;
pub mod likes;
pub mod list_laws;
pub mod listing;
pub mod listing_laws;
pub mod models;
pub mod network;
pub mod network_laws;
pub mod page_laws;
pub mod paths;
pub mod playlist_laws;
pub mod playlist_view;
pub mod playlists;
pub mod schema;
pub mod shelf_laws;
pub mod stock_laws;
pub mod tables;
pub mod told_laws;
