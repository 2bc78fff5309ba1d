pub mod card;
pub mod catalog;
pub mod decimal;
pub mod deck;
pub mod error;
pub mod json;
pub mod laws;
pub mod log;
pub mod reconcile;
pub mod record;
pub mod text;

pub use card::Card;
pub use catalog::{ArenaLink, Catalog};
pub use deck::Deck;
pub use error::LogError;
pub use log::Log;
pub use record::{GetPlayerCardsV3, GetPlayerInventory, GetPlayerInventoryPayload};
