//! Cards, packed card sets, and the deck with its text-hash codec.

pub mod card;
pub mod card_collection;
pub mod deck;

pub use card::Card;
pub use card_collection::CardCollection;
pub use card_collection::CardCollectionIterator;
pub use deck::Deck;
