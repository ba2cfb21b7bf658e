pub mod api;
pub mod models;

pub use models::SearchItem;
