//! Server-side rules of a chat poll over Pokémon move sets: which text a
//! move-set card shows, how a random draw of distinct Pokémon proceeds, and
//! how votes are recorded, counted and closed.

pub mod text;
pub mod votes;
pub mod poll;
pub mod draw;
