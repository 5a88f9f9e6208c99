//! Guild-scoped directory lookup, permission flags, and the sequence-consistent
//! meme store of a chat bot, with their contracts proved.

pub mod directory;
pub mod guild;
pub mod memes;
pub mod perms;
pub mod roles;
pub mod text;
